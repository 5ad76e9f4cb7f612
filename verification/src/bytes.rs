//! Byte-level building blocks shared by the request and response
//! translators: ASCII literals as byte sequences, JSON string escaping in
//! the style of the canonical output format, and replacement of one fixed
//! ASCII phrase by another.

use vstd::prelude::*;
use vstd::string::StrSliceExecFns;
use vstd::utf8::encode_utf8;

verus! {

/// An ASCII character sequence as its identical byte sequence.
pub open spec fn ascii_seq(cs: Seq<char>) -> Seq<u8> {
    Seq::new(cs.len(), |i: int| cs[i] as u8)
}

/// The bytes of an ASCII string slice.
pub fn lit_bytes(s: &str) -> (r: Vec<u8>)
    requires
        vstd::string::is_ascii(s),
    ensures
        r@ == ascii_seq(s@),
{
    broadcast use vstd::string::is_ascii_spec_bytes;

    let r = s.as_bytes_vec();
    proof {
        assert(r@ =~= ascii_seq(s@));
    }
    r
}

/// The UTF-8 bytes of an arbitrary string slice.
pub fn str_to_bytes(s: &str) -> (r: Vec<u8>)
    ensures
        r@ == encode_utf8(s@),
{
    s.as_bytes_vec()
}

/// Appends the bytes of an ASCII literal to `out`.
pub fn append_lit(out: &mut Vec<u8>, s: &str)
    requires
        vstd::string::is_ascii(s),
    ensures
        final(out)@ == old(out)@ + ascii_seq(s@),
{
    let v = lit_bytes(s);
    out.extend_from_slice(v.as_slice());
}

/// Whether `pat` occurs in `t` at position `i`.
pub fn match_at(t: &Vec<u8>, pat: &Vec<u8>, i: usize) -> (r: bool)
    requires
        i + pat@.len() <= t@.len(),
    ensures
        r == (t@.subrange(i as int, i + pat@.len()) == pat@),
{
    let tlen = t.len();
    let mut j: usize = 0;
    while j < pat.len()
        invariant
            tlen == t@.len(),
            i + pat@.len() <= t@.len(),
            j <= pat@.len(),
            forall|k: int| 0 <= k < j ==> t@[i + k] == pat@[k],
        decreases pat@.len() - j,
    {
        if t[i + j] != pat[j] {
            proof {
                assert(t@.subrange(i as int, i + pat@.len())[j as int] != pat@[j as int]);
            }
            return false;
        }
        j += 1;
    }
    proof {
        assert(t@.subrange(i as int, i + pat@.len()) =~= pat@);
    }
    true
}

/// The low hex digit (lower case) of a byte.
pub open spec fn hex_lo(b: u8) -> u8 {
    if b % 16 < 10 {
        (0x30 + b % 16) as u8
    } else {
        (0x57 + b % 16) as u8
    }
}

/// The high hex digit (lower case) of a byte.
pub open spec fn hex_hi(b: u8) -> u8 {
    if b / 16 < 10 {
        (0x30 + b / 16) as u8
    } else {
        (0x57 + b / 16) as u8
    }
}

/// How one byte of a JSON string's content is written: quote and backslash
/// escaped, the common control characters as their short escapes, any other
/// control character as a `\u00` escape, and every remaining byte as itself.
pub open spec fn esc_byte(b: u8) -> Seq<u8> {
    if b == 0x22 {
        seq![0x5c, 0x22]
    } else if b == 0x5c {
        seq![0x5c, 0x5c]
    } else if b == 0x08 {
        seq![0x5c, 0x62]
    } else if b == 0x09 {
        seq![0x5c, 0x74]
    } else if b == 0x0a {
        seq![0x5c, 0x6e]
    } else if b == 0x0c {
        seq![0x5c, 0x66]
    } else if b == 0x0d {
        seq![0x5c, 0x72]
    } else if b < 0x20 {
        seq![0x5c, 0x75, 0x30, 0x30, hex_hi(b), hex_lo(b)]
    } else {
        seq![b]
    }
}

/// A byte sequence escaped for use as JSON string content.
pub open spec fn spec_escape(t: Seq<u8>) -> Seq<u8>
    decreases t.len(),
{
    if t.len() == 0 {
        Seq::empty()
    } else {
        esc_byte(t[0]) + spec_escape(t.skip(1))
    }
}

pub proof fn lemma_escape_snoc(t: Seq<u8>, b: u8)
    ensures
        spec_escape(t.push(b)) == spec_escape(t) + esc_byte(b),
    decreases t.len(),
{
    if t.len() == 0 {
        assert(t.push(b).skip(1) =~= Seq::<u8>::empty());
        assert(t.push(b)[0] == b);
        assert(spec_escape(Seq::<u8>::empty()) == Seq::<u8>::empty());
        assert(spec_escape(t) == Seq::<u8>::empty());
        assert(spec_escape(t.push(b)) =~= spec_escape(t) + esc_byte(b));
    } else {
        assert(t.push(b).skip(1) =~= t.skip(1).push(b));
        lemma_escape_snoc(t.skip(1), b);
        assert(spec_escape(t.push(b)) == esc_byte(t[0]) + spec_escape(t.skip(1).push(b)));
        assert(spec_escape(t.push(b)) =~= spec_escape(t) + esc_byte(b));
    }
}

/// Appends the escaped form of `t` to `out`.
pub fn append_escaped(out: &mut Vec<u8>, t: &Vec<u8>)
    ensures
        final(out)@ == old(out)@ + spec_escape(t@),
{
    let mut i: usize = 0;
    proof {
        assert(t@.subrange(0, 0) =~= Seq::<u8>::empty());
        assert(spec_escape(Seq::<u8>::empty()) == Seq::<u8>::empty());
        assert(out@ =~= out@ + spec_escape(t@.subrange(0, 0)));
    }
    while i < t.len()
        invariant
            i <= t@.len(),
            out@ == old(out)@ + spec_escape(t@.subrange(0, i as int)),
        decreases t@.len() - i,
    {
        let b = t[i];
        proof {
            lemma_escape_snoc(t@.subrange(0, i as int), b);
            assert(t@.subrange(0, i as int).push(b) =~= t@.subrange(0, i + 1));
        }
        if b == 0x22 {
            out.push(0x5c);
            out.push(0x22);
        } else if b == 0x5c {
            out.push(0x5c);
            out.push(0x5c);
        } else if b == 0x08 {
            out.push(0x5c);
            out.push(0x62);
        } else if b == 0x09 {
            out.push(0x5c);
            out.push(0x74);
        } else if b == 0x0a {
            out.push(0x5c);
            out.push(0x6e);
        } else if b == 0x0c {
            out.push(0x5c);
            out.push(0x66);
        } else if b == 0x0d {
            out.push(0x5c);
            out.push(0x72);
        } else if b < 0x20 {
            out.push(0x5c);
            out.push(0x75);
            out.push(0x30);
            out.push(0x30);
            let hi = b / 16;
            let lo = b % 16;
            out.push(if hi < 10 { 0x30 + hi } else { 0x57 + hi });
            out.push(if lo < 10 { 0x30 + lo } else { 0x57 + lo });
        } else {
            out.push(b);
        }
        proof {
            assert(out@ =~= old(out)@ + spec_escape(t@.subrange(0, i + 1)));
        }
        i += 1;
    }
    proof {
        assert(t@.subrange(0, t@.len() as int) =~= t@);
    }
}

/// The phrase replaced inside system messages bound for the
/// content-generation provider.
pub open spec fn brand_needle() -> Seq<u8> {
    ascii_seq("GitHub Copilot"@)
}

/// What the phrase is replaced with.
pub open spec fn brand_repl() -> Seq<u8> {
    ascii_seq("Gemini"@)
}

/// A byte sequence with every non-overlapping, leftmost-first occurrence of
/// the brand phrase replaced.
pub open spec fn spec_replaced(t: Seq<u8>) -> Seq<u8>
    decreases t.len(),
{
    if t.len() == 0 {
        Seq::empty()
    } else if brand_needle().len() >= 1 && t.len() >= brand_needle().len() && t.subrange(
        0,
        brand_needle().len() as int,
    ) == brand_needle() {
        brand_repl() + spec_replaced(t.skip(brand_needle().len() as int))
    } else {
        seq![t[0]] + spec_replaced(t.skip(1))
    }
}

/// Replaces every occurrence of the brand phrase, leftmost first and without
/// overlap.
pub fn replace_brand(t: &Vec<u8>) -> (r: Vec<u8>)
    ensures
        r@ == spec_replaced(t@),
{
    proof {
        reveal_strlit("GitHub Copilot");
        reveal_strlit("Gemini");
    }
    let needle = lit_bytes("GitHub Copilot");
    let repl = lit_bytes("Gemini");
    let nlen = needle.len();
    let mut out: Vec<u8> = Vec::new();
    let mut i: usize = 0;
    proof {
        assert(t@.skip(0) =~= t@);
        assert(Seq::<u8>::empty() + spec_replaced(t@) =~= spec_replaced(t@));
    }
    while i < t.len()
        invariant
            i <= t@.len(),
            needle@ == brand_needle(),
            repl@ == brand_repl(),
            nlen == brand_needle().len(),
            nlen >= 1,
            spec_replaced(t@) == out@ + spec_replaced(t@.skip(i as int)),
        decreases t@.len() - i,
    {
        if nlen <= t.len() && i <= t.len() - nlen && match_at(t, &needle, i) {
            proof {
                assert(t@.skip(i as int).subrange(0, nlen as int) =~= t@.subrange(
                    i as int,
                    i + nlen,
                ));
                assert(t@.skip(i as int).skip(nlen as int) =~= t@.skip(i + nlen));
                assert(spec_replaced(t@.skip(i as int)) == brand_repl() + spec_replaced(
                    t@.skip(i + nlen),
                ));
                assert(out@ + (brand_repl() + spec_replaced(t@.skip(i + nlen))) =~= (out@
                    + brand_repl()) + spec_replaced(t@.skip(i + nlen)));
            }
            out.extend_from_slice(repl.as_slice());
            i += nlen;
        } else {
            proof {
                if t@.skip(i as int).len() >= nlen && t@.skip(i as int).subrange(0, nlen as int)
                    == brand_needle() {
                    assert(t@.subrange(i as int, i + nlen) =~= t@.skip(i as int).subrange(
                        0,
                        nlen as int,
                    ));
                    assert(false);
                }
                assert(t@.skip(i as int)[0] == t@[i as int]);
                assert(t@.skip(i as int).skip(1) =~= t@.skip(i + 1));
                assert(out@ + (seq![t@[i as int]] + spec_replaced(t@.skip(i + 1))) =~= out@.push(
                    t@[i as int],
                ) + spec_replaced(t@.skip(i + 1)));
            }
            let b = t[i];
            out.push(b);
            i += 1;
        }
    }
    proof {
        assert(t@.skip(t@.len() as int) =~= Seq::<u8>::empty());
        assert(out@ =~= spec_replaced(t@));
    }
    out
}

} // verus!
