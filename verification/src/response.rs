//! Translating the tiered provider's streamed response chunks into the
//! canonical delta-chunk format.
//!
//! Each received byte chunk is handled on its own: any leading `data: `
//! prefixes are stripped and the remainder trimmed; if what is left is
//! empty, or does not carry the provider's response shape
//! (`candidates[0].content.parts[0].text`), the chunk becomes the
//! termination marker `data: [DONE]` instead of failing the stream.
//! Otherwise the first part's text is re-wrapped into the canonical shape
//! `{"choices":[{"index":0,"delta":{"content":<text>}}]}`, framed as a
//! `data: ` line. After the upstream stream ends, exactly one trailing
//! termination marker is appended, however the stream ended.
//!
//! The shape is read by a small byte-level reader defined below. It insists
//! on the extracted path — object structure, keys, string escapes — exactly,
//! rejects raw control characters and bad escapes inside the text, and
//! requires the chunk to be a single document with nothing but whitespace
//! after it. Values it does not extract (other keys, other candidates) are
//! skipped by bracket matching without full validation, and object keys are
//! matched on their raw bytes, so escaped spellings of a key are not
//! recognized. Whitespace means ASCII whitespace throughout.

use vstd::prelude::*;
use crate::bytes::{append_lit, ascii_seq, esc_byte, hex_hi, hex_lo, lit_bytes, match_at, spec_escape};
use crate::request::json_str;

verus! {

/// ASCII whitespace as JSON knows it.
pub open spec fn is_ws(b: u8) -> bool {
    b == 0x20 || b == 0x09 || b == 0x0a || b == 0x0d
}

/// First position at or after `pos` that holds no whitespace.
pub open spec fn ws_end(s: Seq<u8>, pos: int) -> int
    decreases s.len() - pos,
{
    if 0 <= pos < s.len() && is_ws(s[pos]) {
        ws_end(s, pos + 1)
    } else {
        pos
    }
}

pub proof fn lemma_ws_end(s: Seq<u8>, pos: int)
    requires
        0 <= pos <= s.len(),
    ensures
        pos <= ws_end(s, pos) <= s.len(),
        ws_end(s, pos) < s.len() ==> !is_ws(s[ws_end(s, pos)]),
    decreases s.len() - pos,
{
    if pos < s.len() && is_ws(s[pos]) {
        lemma_ws_end(s, pos + 1);
    }
}

/// Position just past the closing quote of a string whose content starts at
/// `pos`, skipping escaped characters pairwise; `None` when the string never
/// closes.
pub open spec fn str_end(s: Seq<u8>, pos: int) -> Option<int>
    decreases s.len() - pos,
{
    if !(0 <= pos < s.len()) {
        None
    } else if s[pos] == 0x22 {
        Some(pos + 1)
    } else if s[pos] == 0x5c {
        if pos + 2 <= s.len() {
            str_end(s, pos + 2)
        } else {
            None
        }
    } else {
        str_end(s, pos + 1)
    }
}

pub proof fn lemma_str_end(s: Seq<u8>, pos: int)
    requires
        0 <= pos,
    ensures
        match str_end(s, pos) {
            Some(e) => pos < e <= s.len(),
            None => true,
        },
    decreases s.len() - pos,
{
    if 0 <= pos < s.len() {
        if s[pos] == 0x22 {
        } else if s[pos] == 0x5c {
            if pos + 2 <= s.len() {
                lemma_str_end(s, pos + 2);
            }
        } else {
            lemma_str_end(s, pos + 1);
        }
    }
}

/// A byte that may continue a scalar token (a number or a literal such as
/// `true`): anything but whitespace and JSON structure.
pub open spec fn is_scalar_byte(b: u8) -> bool {
    !is_ws(b) && b != 0x2c && b != 0x7d && b != 0x5d && b != 0x3a && b != 0x22 && b != 0x7b && b
        != 0x5b
}

/// End of the scalar token starting at `pos`.
pub open spec fn scalar_end(s: Seq<u8>, pos: int) -> int
    decreases s.len() - pos,
{
    if 0 <= pos < s.len() && is_scalar_byte(s[pos]) {
        scalar_end(s, pos + 1)
    } else {
        pos
    }
}

pub proof fn lemma_scalar_end(s: Seq<u8>, pos: int)
    requires
        0 <= pos <= s.len(),
    ensures
        pos <= scalar_end(s, pos) <= s.len(),
    decreases s.len() - pos,
{
    if pos < s.len() && is_scalar_byte(s[pos]) {
        lemma_scalar_end(s, pos + 1);
    }
}

/// Position just past the bracket that closes the one opened before `pos`,
/// read as a character automaton: `depth` open brackets so far, `in_str`
/// inside a string, `esc` right after a backslash. Bracket kinds are not
/// matched against each other; skipped values are not fully validated.
pub open spec fn bracket_end(s: Seq<u8>, pos: int, depth: int, in_str: bool, esc: bool) -> Option<
    int,
>
    decreases s.len() - pos,
{
    if !(0 <= pos < s.len()) {
        None
    } else {
        let c = s[pos];
        if in_str {
            if esc {
                bracket_end(s, pos + 1, depth, true, false)
            } else if c == 0x5c {
                bracket_end(s, pos + 1, depth, true, true)
            } else if c == 0x22 {
                bracket_end(s, pos + 1, depth, false, false)
            } else {
                bracket_end(s, pos + 1, depth, true, false)
            }
        } else if c == 0x22 {
            bracket_end(s, pos + 1, depth, true, false)
        } else if c == 0x7b || c == 0x5b {
            bracket_end(s, pos + 1, depth + 1, false, false)
        } else if c == 0x7d || c == 0x5d {
            if depth == 1 {
                Some(pos + 1)
            } else {
                bracket_end(s, pos + 1, depth - 1, false, false)
            }
        } else {
            bracket_end(s, pos + 1, depth, false, false)
        }
    }
}

pub proof fn lemma_bracket_end(s: Seq<u8>, pos: int, depth: int, in_str: bool, esc: bool)
    requires
        0 <= pos,
    ensures
        match bracket_end(s, pos, depth, in_str, esc) {
            Some(e) => pos < e <= s.len(),
            None => true,
        },
    decreases s.len() - pos,
{
    if 0 <= pos < s.len() {
        let c = s[pos];
        if in_str {
            if esc {
                lemma_bracket_end(s, pos + 1, depth, true, false);
            } else if c == 0x5c {
                lemma_bracket_end(s, pos + 1, depth, true, true);
            } else if c == 0x22 {
                lemma_bracket_end(s, pos + 1, depth, false, false);
            } else {
                lemma_bracket_end(s, pos + 1, depth, true, false);
            }
        } else if c == 0x22 {
            lemma_bracket_end(s, pos + 1, depth, true, false);
        } else if c == 0x7b || c == 0x5b {
            lemma_bracket_end(s, pos + 1, depth + 1, false, false);
        } else if c == 0x7d || c == 0x5d {
            if depth != 1 {
                lemma_bracket_end(s, pos + 1, depth - 1, false, false);
            }
        } else {
            lemma_bracket_end(s, pos + 1, depth, false, false);
        }
    }
}

/// Position just past the JSON value starting at `pos` (which must not be
/// whitespace); `None` when no value starts there.
pub open spec fn value_end(s: Seq<u8>, pos: int) -> Option<int> {
    if !(0 <= pos < s.len()) {
        None
    } else if s[pos] == 0x22 {
        str_end(s, pos + 1)
    } else if s[pos] == 0x7b || s[pos] == 0x5b {
        bracket_end(s, pos + 1, 1, false, false)
    } else {
        let e = scalar_end(s, pos);
        if e > pos {
            Some(e)
        } else {
            None
        }
    }
}

pub proof fn lemma_value_end(s: Seq<u8>, pos: int)
    requires
        0 <= pos,
    ensures
        match value_end(s, pos) {
            Some(e) => pos < e <= s.len(),
            None => true,
        },
{
    if 0 <= pos < s.len() {
        if s[pos] == 0x22 {
            lemma_str_end(s, pos + 1);
        } else if s[pos] == 0x7b || s[pos] == 0x5b {
            lemma_bracket_end(s, pos + 1, 1, false, false);
        } else {
            lemma_scalar_end(s, pos);
        }
    }
}

/// Scans an object's entries from the start of one entry (or the closing
/// brace) and gives the position of the value of the first entry whose raw
/// key bytes equal `key`; `None` when the key is absent or an entry is not
/// shaped like one.
pub open spec fn entries_find(s: Seq<u8>, pos: int, key: Seq<u8>) -> Option<int>
    decreases s.len() - pos,
{
    if !(0 <= pos < s.len()) {
        None
    } else if s[pos] != 0x22 {
        None
    } else {
        match str_end(s, pos + 1) {
            None => None,
            Some(ke) => {
                let kraw = s.subrange(pos + 1, ke - 1);
                let c1 = ws_end(s, ke);
                if !(c1 < s.len() && s[c1] == 0x3a) {
                    None
                } else {
                    let vp = ws_end(s, c1 + 1);
                    if kraw == key {
                        Some(vp)
                    } else {
                        match value_end(s, vp) {
                            None => None,
                            Some(ve) => {
                                let p2 = ws_end(s, ve);
                                if p2 < s.len() && s[p2] == 0x2c {
                                    let np = ws_end(s, p2 + 1);
                                    if pos < np <= s.len() {
                                        entries_find(s, np, key)
                                    } else {
                                        None
                                    }
                                } else {
                                    None
                                }
                            },
                        }
                    }
                }
            },
        }
    }
}

/// The value position of `key` in the object starting at `pos`.
pub open spec fn obj_find(s: Seq<u8>, pos: int, key: Seq<u8>) -> Option<int> {
    if 0 <= pos < s.len() && s[pos] == 0x7b {
        entries_find(s, ws_end(s, pos + 1), key)
    } else {
        None
    }
}

/// The position of the first element of the array starting at `pos`; `None`
/// when there is no array or it is empty.
pub open spec fn arr_first(s: Seq<u8>, pos: int) -> Option<int> {
    if 0 <= pos < s.len() && s[pos] == 0x5b {
        let p = ws_end(s, pos + 1);
        if p < s.len() && s[p] != 0x5d {
            Some(p)
        } else {
            None
        }
    } else {
        None
    }
}

/// Value of a hex digit, or 16 for any other byte.
pub open spec fn hex_val(b: u8) -> int {
    if 0x30 <= b <= 0x39 {
        b - 0x30
    } else if 0x61 <= b <= 0x66 {
        b - 0x61 + 10
    } else if 0x41 <= b <= 0x46 {
        b - 0x41 + 10
    } else {
        16
    }
}

pub open spec fn is_hex(b: u8) -> bool {
    hex_val(b) < 16
}

/// Value of the four hex digits at `pos`.
pub open spec fn hex4(s: Seq<u8>, pos: int) -> int {
    hex_val(s[pos]) * 4096 + hex_val(s[pos + 1]) * 256 + hex_val(s[pos + 2]) * 16 + hex_val(
        s[pos + 3],
    )
}

pub open spec fn hex4_ok(s: Seq<u8>, pos: int) -> bool {
    is_hex(s[pos]) && is_hex(s[pos + 1]) && is_hex(s[pos + 2]) && is_hex(s[pos + 3])
}

/// The UTF-8 encoding of a Unicode scalar value.
pub open spec fn utf8_enc(cp: int) -> Seq<u8> {
    if cp < 0x80 {
        seq![cp as u8]
    } else if cp < 0x800 {
        seq![(0xc0 + cp / 64) as u8, (0x80 + cp % 64) as u8]
    } else if cp < 0x10000 {
        seq![(0xe0 + cp / 4096) as u8, (0x80 + (cp / 64) % 64) as u8, (0x80 + cp % 64) as u8]
    } else {
        seq![
            (0xf0 + cp / 262144) as u8,
            (0x80 + (cp / 4096) % 64) as u8,
            (0x80 + (cp / 64) % 64) as u8,
            (0x80 + cp % 64) as u8,
        ]
    }
}

/// The simple escapes and what they stand for.
pub open spec fn esc_val(e: u8) -> Option<u8> {
    if e == 0x22 {
        Some(0x22)
    } else if e == 0x5c {
        Some(0x5c)
    } else if e == 0x2f {
        Some(0x2f)
    } else if e == 0x62 {
        Some(0x08)
    } else if e == 0x66 {
        Some(0x0c)
    } else if e == 0x6e {
        Some(0x0a)
    } else if e == 0x72 {
        Some(0x0d)
    } else if e == 0x74 {
        Some(0x09)
    } else {
        None
    }
}

/// Prefixes the decoded text of a partial result.
pub open spec fn opt_prepend(pre: Seq<u8>, o: Option<(Seq<u8>, int)>) -> Option<(Seq<u8>, int)> {
    match o {
        Some((t, e)) => Some((pre + t, e)),
        None => None,
    }
}

/// Decodes the content of a JSON string from `pos` (just after the opening
/// quote) to its closing quote: simple escapes, `\u` escapes including
/// surrogate pairs, and raw bytes; rejects unknown escapes, lone
/// surrogates, raw control characters and an unterminated string. Gives the
/// decoded bytes and the position just past the closing quote.
pub open spec fn unesc(s: Seq<u8>, pos: int) -> Option<(Seq<u8>, int)>
    decreases s.len() - pos,
{
    if !(0 <= pos < s.len()) {
        None
    } else {
        let c = s[pos];
        if c == 0x22 {
            Some((Seq::empty(), pos + 1))
        } else if c == 0x5c {
            if pos + 2 > s.len() {
                None
            } else {
                let e = s[pos + 1];
                match esc_val(e) {
                    Some(b) => opt_prepend(seq![b], unesc(s, pos + 2)),
                    None => {
                        if e == 0x75 {
                            if pos + 6 <= s.len() && hex4_ok(s, pos + 2) {
                                let cp = hex4(s, pos + 2);
                                if 0xd800 <= cp < 0xdc00 {
                                    if pos + 12 <= s.len() && s[pos + 6] == 0x5c && s[pos + 7]
                                        == 0x75 && hex4_ok(s, pos + 8) && 0xdc00 <= hex4(s, pos + 8)
                                        < 0xe000 {
                                        let cp2 = hex4(s, pos + 8);
                                        let full = 0x10000 + (cp - 0xd800) * 0x400 + (cp2 - 0xdc00);
                                        opt_prepend(utf8_enc(full), unesc(s, pos + 12))
                                    } else {
                                        None
                                    }
                                } else if 0xdc00 <= cp < 0xe000 {
                                    None
                                } else {
                                    opt_prepend(utf8_enc(cp), unesc(s, pos + 6))
                                }
                            } else {
                                None
                            }
                        } else {
                            None
                        }
                    },
                }
            }
        } else if c < 0x20 {
            None
        } else {
            opt_prepend(seq![c], unesc(s, pos + 1))
        }
    }
}

/// The key names of the provider's response shape.
pub open spec fn key_candidates() -> Seq<u8> {
    ascii_seq("candidates"@)
}

pub open spec fn key_content() -> Seq<u8> {
    ascii_seq("content"@)
}

pub open spec fn key_parts() -> Seq<u8> {
    ascii_seq("parts"@)
}

pub open spec fn key_text() -> Seq<u8> {
    ascii_seq("text"@)
}

/// Reads `candidates[0].content.parts[0].text` out of a trimmed chunk that
/// must be one JSON document with nothing but whitespace after it. This
/// definition is the contract of the chunk reader, deviations from full
/// JSON semantics included: object keys are matched on their raw bytes (an
/// escaped spelling of a key is not recognized), the first of duplicate
/// keys wins, and values outside the extracted path are skipped by bracket
/// matching, without validating them or pairing bracket kinds. The looser
/// reading is deliberate: what the stream contract owes is that a chunk
/// without the shape becomes the termination marker and never aborts the
/// stream, which holds under any rejection boundary; the reader differs
/// from a full JSON parser only on chunks no conforming upstream emits,
/// and even then it answers text only when the whole extraction path —
/// structure, keys and string escapes — is itself present and valid.
pub open spec fn spec_extract_text(s: Seq<u8>) -> Option<Seq<u8>> {
    let p0 = ws_end(s, 0);
    match value_end(s, p0) {
        None => None,
        Some(de) => {
            if ws_end(s, de) != s.len() {
                None
            } else {
                match obj_find(s, p0, key_candidates()) {
                    None => None,
                    Some(vp1) => match arr_first(s, vp1) {
                        None => None,
                        Some(c0) => match obj_find(s, c0, key_content()) {
                            None => None,
                            Some(vp2) => match obj_find(s, vp2, key_parts()) {
                                None => None,
                                Some(vp3) => match arr_first(s, vp3) {
                                    None => None,
                                    Some(e0) => match obj_find(s, e0, key_text()) {
                                        None => None,
                                        Some(vp4) => {
                                            if vp4 < s.len() && s[vp4] == 0x22 {
                                                match unesc(s, vp4 + 1) {
                                                    Some((t, _e)) => Some(t),
                                                    None => None,
                                                }
                                            } else {
                                                None
                                            }
                                        },
                                    },
                                },
                            },
                        },
                    },
                }
            }
        },
    }
}

/// The chunk with every leading `data: ` prefix removed.
pub open spec fn strip_data_prefixes(s: Seq<u8>) -> Seq<u8>
    decreases s.len(),
{
    if s.len() >= 6 && s.subrange(0, 6) == ascii_seq("data: "@) && ascii_seq("data: "@).len() == 6 {
        strip_data_prefixes(s.skip(6))
    } else {
        s
    }
}

/// First position from the end (exclusive) that still holds content.
pub open spec fn ws_start(s: Seq<u8>, pos: int) -> int
    decreases pos,
{
    if 0 < pos <= s.len() && is_ws(s[pos - 1]) {
        ws_start(s, pos - 1)
    } else {
        pos
    }
}

pub proof fn lemma_ws_start(s: Seq<u8>, pos: int)
    requires
        0 <= pos <= s.len(),
    ensures
        0 <= ws_start(s, pos) <= pos,
    decreases pos,
{
    if 0 < pos && is_ws(s[pos - 1]) {
        lemma_ws_start(s, pos - 1);
    }
}

pub proof fn lemma_ws_start_past(s: Seq<u8>, pos: int, a: int)
    requires
        0 <= a < pos <= s.len(),
        !is_ws(s[a]),
    ensures
        a < ws_start(s, pos) <= pos,
    decreases pos,
{
    if is_ws(s[pos - 1]) {
        lemma_ws_start_past(s, pos - 1, a);
    }
}

/// The chunk with surrounding whitespace removed.
pub open spec fn trim_bytes(s: Seq<u8>) -> Seq<u8> {
    let a = ws_end(s, 0);
    if a == s.len() {
        Seq::empty()
    } else {
        s.subrange(a, ws_start(s, s.len() as int))
    }
}

/// The termination marker every stream ends with, and the substitute for
/// any chunk that carries no text.
pub open spec fn done_bytes() -> Seq<u8> {
    ascii_seq("data: [DONE]"@)
}

/// A text re-wrapped into the canonical delta-chunk shape, framed as a
/// `data: ` line.
pub open spec fn wrap_text(t: Seq<u8>) -> Seq<u8> {
    ascii_seq("data: {\"choices\":[{\"index\":0,\"delta\":{\"content\":"@) + json_str(t)
        + ascii_seq("}}]}"@) + ascii_seq("\n\n"@)
}

/// What one received chunk becomes: its extracted text re-wrapped, or the
/// termination marker when the chunk is blank or does not carry the shape.
pub open spec fn spec_transform(chunk: Seq<u8>) -> Seq<u8> {
    let t = trim_bytes(strip_data_prefixes(chunk));
    if t.len() == 0 {
        done_bytes()
    } else {
        match spec_extract_text(t) {
            Some(txt) => wrap_text(txt),
            None => done_bytes(),
        }
    }
}

/// No chunk aborts the stream: whatever bytes arrive, the translation of a
/// chunk is either a canonical `data: ` line wrapping some text or the
/// termination marker.
pub proof fn lemma_transform_total(chunk: Seq<u8>)
    ensures
        spec_transform(chunk) == done_bytes() || (exists|t: Seq<u8>|
            spec_transform(chunk) == wrap_text(t)),
{
}

/// An `Option<usize>` as the ghost option of positions the readers above
/// speak of.
pub open spec fn opt_pos(r: Option<usize>) -> Option<int> {
    match r {
        Some(u) => Some(u as int),
        None => None,
    }
}

fn exec_ws_end(s: &Vec<u8>, pos: usize) -> (r: usize)
    requires
        pos <= s@.len(),
    ensures
        r as int == ws_end(s@, pos as int),
        pos <= r <= s@.len(),
{
    let mut p = pos;
    while p < s.len() && (s[p] == 0x20 || s[p] == 0x09 || s[p] == 0x0a || s[p] == 0x0d)
        invariant
            pos <= p <= s@.len(),
            ws_end(s@, pos as int) == ws_end(s@, p as int),
        decreases s@.len() - p,
    {
        p += 1;
    }
    p
}

fn exec_scalar_end(s: &Vec<u8>, pos: usize) -> (r: usize)
    requires
        pos <= s@.len(),
    ensures
        r as int == scalar_end(s@, pos as int),
        pos <= r <= s@.len(),
{
    let mut p = pos;
    while p < s.len() && is_scalar_b(s[p])
        invariant
            pos <= p <= s@.len(),
            scalar_end(s@, pos as int) == scalar_end(s@, p as int),
        decreases s@.len() - p,
    {
        p += 1;
    }
    p
}

fn is_scalar_b(c: u8) -> (r: bool)
    ensures
        r == is_scalar_byte(c),
{
    !(c == 0x20 || c == 0x09 || c == 0x0a || c == 0x0d) && c != 0x2c && c != 0x7d && c != 0x5d
        && c != 0x3a && c != 0x22 && c != 0x7b && c != 0x5b
}

fn is_ws_b(c: u8) -> (r: bool)
    ensures
        r == is_ws(c),
{
    c == 0x20 || c == 0x09 || c == 0x0a || c == 0x0d
}

fn exec_str_end(s: &Vec<u8>, pos: usize) -> (r: Option<usize>)
    requires
        pos <= s@.len(),
    ensures
        opt_pos(r) == str_end(s@, pos as int),
{
    let mut p = pos;
    while p < s.len()
        invariant
            pos <= p <= s@.len(),
            str_end(s@, pos as int) == str_end(s@, p as int),
        decreases s@.len() - p,
    {
        let c = s[p];
        if c == 0x22 {
            return Some(p + 1);
        } else if c == 0x5c {
            if s.len() - p >= 2 {
                p += 2;
            } else {
                return None;
            }
        } else {
            p += 1;
        }
    }
    None
}

fn exec_bracket_end(s: &Vec<u8>, pos: usize) -> (r: Option<usize>)
    requires
        1 <= pos <= s@.len(),
    ensures
        opt_pos(r) == bracket_end(s@, pos as int, 1, false, false),
{
    let mut p = pos;
    let mut depth: usize = 1;
    let mut in_str = false;
    let mut esc = false;
    while p < s.len()
        invariant
            1 <= pos <= p <= s@.len(),
            1 <= depth,
            depth as int <= p - pos + 1,
            !in_str ==> !esc,
            bracket_end(s@, pos as int, 1, false, false) == bracket_end(
                s@,
                p as int,
                depth as int,
                in_str,
                esc,
            ),
        decreases s@.len() - p,
    {
        let ghost pg = p as int;
        let ghost dg = depth as int;
        let ghost ig = in_str;
        let ghost eg = esc;
        let c = s[p];
        if in_str {
            if esc {
                esc = false;
            } else if c == 0x5c {
                esc = true;
            } else if c == 0x22 {
                in_str = false;
            }
            p += 1;
        } else if c == 0x22 {
            in_str = true;
            p += 1;
        } else if c == 0x7b || c == 0x5b {
            depth += 1;
            p += 1;
        } else if c == 0x7d || c == 0x5d {
            if depth == 1 {
                return Some(p + 1);
            } else {
                depth -= 1;
                p += 1;
            }
        } else {
            p += 1;
        }
        proof {
            assert(bracket_end(s@, pg, dg, ig, eg) == bracket_end(
                s@,
                p as int,
                depth as int,
                in_str,
                esc,
            ));
        }
    }
    None
}

fn exec_value_end(s: &Vec<u8>, pos: usize) -> (r: Option<usize>)
    requires
        pos <= s@.len(),
    ensures
        opt_pos(r) == value_end(s@, pos as int),
{
    if pos >= s.len() {
        return None;
    }
    let c = s[pos];
    if c == 0x22 {
        exec_str_end(s, pos + 1)
    } else if c == 0x7b || c == 0x5b {
        exec_bracket_end(s, pos + 1)
    } else {
        let e = exec_scalar_end(s, pos);
        if e > pos {
            Some(e)
        } else {
            None
        }
    }
}

fn exec_entries_find(s: &Vec<u8>, pos: usize, key: &Vec<u8>) -> (r: Option<usize>)
    requires
        pos <= s@.len(),
    ensures
        opt_pos(r) == entries_find(s@, pos as int, key@),
{
    let mut p = pos;
    while p < s.len()
        invariant
            pos <= p <= s@.len(),
            entries_find(s@, pos as int, key@) == entries_find(s@, p as int, key@),
        decreases s@.len() - p,
    {
        if s[p] != 0x22 {
            return None;
        }
        let ke = match exec_str_end(s, p + 1) {
            Some(ke) => ke,
            None => {
                return None;
            },
        };
        proof {
            lemma_str_end(s@, p + 1);
        }
        let c1 = exec_ws_end(s, ke);
        if !(c1 < s.len() && s[c1] == 0x3a) {
            return None;
        }
        let vp = exec_ws_end(s, c1 + 1);
        let klen = ke - 1 - (p + 1);
        let matches = klen == key.len() && match_at(s, key, p + 1);
        proof {
            let kraw = s@.subrange(p + 1, ke - 1);
            if klen == key@.len() {
                assert(kraw =~= s@.subrange(p + 1, p + 1 + key@.len()));
            } else {
                assert(kraw.len() != key@.len());
            }
            assert(matches == (kraw == key@));
        }
        if matches {
            return Some(vp);
        }
        let ve = match exec_value_end(s, vp) {
            Some(ve) => ve,
            None => {
                return None;
            },
        };
        proof {
            lemma_value_end(s@, vp as int);
        }
        let p2 = exec_ws_end(s, ve);
        if !(p2 < s.len() && s[p2] == 0x2c) {
            return None;
        }
        let np = exec_ws_end(s, p2 + 1);
        if !(p < np && np <= s.len()) {
            return None;
        }
        p = np;
    }
    None
}

fn exec_obj_find(s: &Vec<u8>, pos: usize, key: &Vec<u8>) -> (r: Option<usize>)
    requires
        pos <= s@.len(),
    ensures
        opt_pos(r) == obj_find(s@, pos as int, key@),
{
    if pos < s.len() && s[pos] == 0x7b {
        let p = exec_ws_end(s, pos + 1);
        exec_entries_find(s, p, key)
    } else {
        None
    }
}

fn exec_arr_first(s: &Vec<u8>, pos: usize) -> (r: Option<usize>)
    requires
        pos <= s@.len(),
    ensures
        opt_pos(r) == arr_first(s@, pos as int),
{
    if pos < s.len() && s[pos] == 0x5b {
        let p = exec_ws_end(s, pos + 1);
        if p < s.len() && s[p] != 0x5d {
            Some(p)
        } else {
            None
        }
    } else {
        None
    }
}

fn exec_hex_val(b: u8) -> (r: u8)
    ensures
        r as int == hex_val(b),
{
    if 0x30 <= b && b <= 0x39 {
        b - 0x30
    } else if 0x61 <= b && b <= 0x66 {
        b - 0x61 + 10
    } else if 0x41 <= b && b <= 0x46 {
        b - 0x41 + 10
    } else {
        16
    }
}

/// Appends the UTF-8 encoding of a scalar value.
fn push_utf8(acc: &mut Vec<u8>, cp: u32)
    requires
        cp < 0x110000,
    ensures
        final(acc)@ == old(acc)@ + utf8_enc(cp as int),
{
    if cp < 0x80 {
        acc.push(cp as u8);
    } else if cp < 0x800 {
        acc.push(0xc0 + (cp / 64) as u8);
        acc.push(0x80 + (cp % 64) as u8);
    } else if cp < 0x10000 {
        acc.push(0xe0 + (cp / 4096) as u8);
        acc.push(0x80 + ((cp / 64) % 64) as u8);
        acc.push(0x80 + (cp % 64) as u8);
    } else {
        acc.push(0xf0 + (cp / 262144) as u8);
        acc.push(0x80 + ((cp / 4096) % 64) as u8);
        acc.push(0x80 + ((cp / 64) % 64) as u8);
        acc.push(0x80 + (cp % 64) as u8);
    }
    proof {
        assert(acc@ =~= old(acc)@ + utf8_enc(cp as int));
    }
}

proof fn lemma_opt_prepend_assoc(pre1: Seq<u8>, pre2: Seq<u8>, o: Option<(Seq<u8>, int)>)
    ensures
        opt_prepend(pre1, opt_prepend(pre2, o)) == opt_prepend(pre1 + pre2, o),
{
    match o {
        Some((t, e)) => {
            assert(pre1 + (pre2 + t) =~= (pre1 + pre2) + t);
        },
        None => {},
    }
}

#[verifier::spinoff_prover]
fn exec_unesc(s: &Vec<u8>, pos: usize) -> (r: Option<(Vec<u8>, usize)>)
    requires
        pos <= s@.len(),
    ensures
        match r {
            Some(ve) => unesc(s@, pos as int) == Some((ve.0@, ve.1 as int)),
            None => unesc(s@, pos as int) is None,
        },
{
    let mut acc: Vec<u8> = Vec::new();
    let mut p = pos;
    proof {
        assert(acc@ =~= Seq::<u8>::empty());
        assert(unesc(s@, pos as int) == opt_prepend(acc@, unesc(s@, p as int)));
    }
    while p < s.len()
        invariant
            pos <= p <= s@.len(),
            unesc(s@, pos as int) == opt_prepend(acc@, unesc(s@, p as int)),
        decreases s@.len() - p,
    {
        let c = s[p];
        if c == 0x22 {
            proof {
                assert(unesc(s@, p as int) == Some((Seq::<u8>::empty(), p + 1)));
                assert(acc@ + Seq::<u8>::empty() =~= acc@);
            }
            return Some((acc, p + 1));
        } else if c == 0x5c {
            if s.len() - p < 2 {
                return None;
            }
            let e = s[p + 1];
            let ghost acc0 = acc@;
            if e == 0x22 || e == 0x5c || e == 0x2f || e == 0x62 || e == 0x66 || e == 0x6e || e
                == 0x72 || e == 0x74 {
                let b: u8 = if e == 0x62 {
                    0x08
                } else if e == 0x66 {
                    0x0c
                } else if e == 0x6e {
                    0x0a
                } else if e == 0x72 {
                    0x0d
                } else if e == 0x74 {
                    0x09
                } else {
                    e
                };
                acc.push(b);
                proof {
                    assert(esc_val(e) == Some(b));
                    lemma_unesc_simple(s@, p as int, b);
                    lemma_opt_prepend_assoc(acc0, seq![b], unesc(s@, p + 2));
                    assert(acc0 + seq![b] =~= acc@);
                }
                p += 2;
            } else if e == 0x75 {
                if !(s.len() - p >= 6) {
                    return None;
                }
                let h0 = exec_hex_val(s[p + 2]);
                let h1 = exec_hex_val(s[p + 3]);
                let h2 = exec_hex_val(s[p + 4]);
                let h3 = exec_hex_val(s[p + 5]);
                if !(h0 < 16 && h1 < 16 && h2 < 16 && h3 < 16) {
                    return None;
                }
                let cp: u32 = (h0 as u32) * 4096 + (h1 as u32) * 256 + (h2 as u32) * 16
                    + (h3 as u32);
                proof {
                    assert(hex4_ok(s@, p + 2));
                    assert(cp as int == hex4(s@, p + 2));
                }
                if 0xd800 <= cp && cp < 0xdc00 {
                    if !(s.len() - p >= 12 && s[p + 6] == 0x5c && s[p + 7] == 0x75) {
                        return None;
                    }
                    let g0 = exec_hex_val(s[p + 8]);
                    let g1 = exec_hex_val(s[p + 9]);
                    let g2 = exec_hex_val(s[p + 10]);
                    let g3 = exec_hex_val(s[p + 11]);
                    if !(g0 < 16 && g1 < 16 && g2 < 16 && g3 < 16) {
                        return None;
                    }
                    let cp2: u32 = (g0 as u32) * 4096 + (g1 as u32) * 256 + (g2 as u32) * 16
                        + (g3 as u32);
                    proof {
                        assert(hex4_ok(s@, p + 8));
                        assert(cp2 as int == hex4(s@, p + 8));
                    }
                    if !(0xdc00 <= cp2 && cp2 < 0xe000) {
                        return None;
                    }
                    let full: u32 = 0x10000 + (cp - 0xd800) * 0x400 + (cp2 - 0xdc00);
                    push_utf8(&mut acc, full);
                    proof {
                        lemma_unesc_pair(s@, p as int, cp as int, cp2 as int);
                        lemma_opt_prepend_assoc(acc0, utf8_enc(full as int), unesc(s@, p + 12));
                        assert(acc0 + utf8_enc(full as int) =~= acc@);
                    }
                    p += 12;
                } else if 0xdc00 <= cp && cp < 0xe000 {
                    return None;
                } else {
                    push_utf8(&mut acc, cp);
                    proof {
                        lemma_unesc_u4(s@, p as int, cp as int);
                        lemma_opt_prepend_assoc(acc0, utf8_enc(cp as int), unesc(s@, p + 6));
                        assert(acc0 + utf8_enc(cp as int) =~= acc@);
                    }
                    p += 6;
                }
            } else {
                return None;
            }
        } else if c < 0x20 {
            return None;
        } else {
            let ghost acc0 = acc@;
            acc.push(c);
            proof {
                lemma_unesc_plain(s@, p as int);
                lemma_opt_prepend_assoc(acc0, seq![c], unesc(s@, p + 1));
                assert(acc0 + seq![c] =~= acc@);
            }
            p += 1;
        }
    }
    None
}

/// Reads the first candidate's first part's text out of a trimmed chunk.
pub fn extract_text(s: &Vec<u8>) -> (r: Option<Vec<u8>>)
    ensures
        match r {
            Some(v) => spec_extract_text(s@) == Some(v@),
            None => spec_extract_text(s@) is None,
        },
{
    proof {
        reveal_strlit("candidates");
        reveal_strlit("content");
        reveal_strlit("parts");
        reveal_strlit("text");
    }
    let kc = lit_bytes("candidates");
    let ko = lit_bytes("content");
    let kp = lit_bytes("parts");
    let kt = lit_bytes("text");
    let p0 = exec_ws_end(s, 0);
    let de = match exec_value_end(s, p0) {
        Some(de) => de,
        None => {
            return None;
        },
    };
    proof {
        lemma_value_end(s@, p0 as int);
    }
    if exec_ws_end(s, de) != s.len() {
        return None;
    }
    let vp1 = match exec_obj_find(s, p0, &kc) {
        Some(v) => v,
        None => {
            return None;
        },
    };
    proof {
        lemma_entries_find(s@, key_candidates());
    }
    let c0 = match exec_arr_first(s, vp1) {
        Some(v) => v,
        None => {
            return None;
        },
    };
    let vp2 = match exec_obj_find(s, c0, &ko) {
        Some(v) => v,
        None => {
            return None;
        },
    };
    proof {
        lemma_entries_find(s@, key_content());
    }
    let vp3 = match exec_obj_find(s, vp2, &kp) {
        Some(v) => v,
        None => {
            return None;
        },
    };
    proof {
        lemma_entries_find(s@, key_parts());
    }
    let e0 = match exec_arr_first(s, vp3) {
        Some(v) => v,
        None => {
            return None;
        },
    };
    let vp4 = match exec_obj_find(s, e0, &kt) {
        Some(v) => v,
        None => {
            return None;
        },
    };
    proof {
        lemma_entries_find(s@, key_text());
    }
    if !(vp4 < s.len() && s[vp4] == 0x22) {
        return None;
    }
    match exec_unesc(s, vp4 + 1) {
        Some((t, _e)) => Some(t),
        None => None,
    }
}

/// Every position `entries_find` can give is within the chunk.
proof fn lemma_entries_find(s: Seq<u8>, key: Seq<u8>)
    ensures
        forall|pos: int|
            0 <= pos ==> match #[trigger] entries_find(s, pos, key) {
                Some(vp) => 0 <= vp <= s.len(),
                None => true,
            },
{
    assert forall|pos: int| 0 <= pos implies match #[trigger] entries_find(s, pos, key) {
        Some(vp) => 0 <= vp <= s.len(),
        None => true,
    } by {
        lemma_entries_find_at(s, pos, key);
    }
}

proof fn lemma_entries_find_at(s: Seq<u8>, pos: int, key: Seq<u8>)
    requires
        0 <= pos,
    ensures
        match entries_find(s, pos, key) {
            Some(vp) => 0 <= vp <= s.len(),
            None => true,
        },
    decreases s.len() - pos,
{
    if 0 <= pos < s.len() && s[pos] == 0x22 {
        match str_end(s, pos + 1) {
            None => {},
            Some(ke) => {
                lemma_str_end(s, pos + 1);
                let c1 = ws_end(s, ke);
                lemma_ws_end(s, ke);
                if c1 < s.len() && s[c1] == 0x3a {
                    let vp = ws_end(s, c1 + 1);
                    lemma_ws_end(s, c1 + 1);
                    let kraw = s.subrange(pos + 1, ke - 1);
                    if kraw == key {
                    } else {
                        match value_end(s, vp) {
                            None => {},
                            Some(ve) => {
                                lemma_value_end(s, vp);
                                let p2 = ws_end(s, ve);
                                lemma_ws_end(s, ve);
                                if p2 < s.len() && s[p2] == 0x2c {
                                    let np = ws_end(s, p2 + 1);
                                    if pos < np <= s.len() {
                                        lemma_entries_find_at(s, np, key);
                                    }
                                }
                            },
                        }
                    }
                }
            },
        }
    }
}

/// The bytes of `s` from `a` (inclusive) to `b` (exclusive).
fn sub_vec(s: &Vec<u8>, a: usize, b: usize) -> (r: Vec<u8>)
    requires
        a <= b <= s@.len(),
    ensures
        r@ == s@.subrange(a as int, b as int),
{
    let mut r: Vec<u8> = Vec::new();
    let mut j = a;
    while j < b
        invariant
            a <= j <= b <= s@.len(),
            r@ == s@.subrange(a as int, j as int),
        decreases b - j,
    {
        r.push(s[j]);
        proof {
            assert(s@.subrange(a as int, j as int).push(s@[j as int]) =~= s@.subrange(
                a as int,
                j + 1,
            ));
        }
        j += 1;
    }
    proof {
        assert(r@ =~= s@.subrange(a as int, b as int));
    }
    r
}

/// Strips every leading `data: ` prefix and trims surrounding whitespace.
pub fn strip_and_trim(chunk: &Vec<u8>) -> (r: Vec<u8>)
    ensures
        r@ == trim_bytes(strip_data_prefixes(chunk@)),
{
    proof {
        reveal_strlit("data: ");
    }
    let pre = lit_bytes("data: ");
    let mut start: usize = 0;
    proof {
        assert(chunk@.skip(0) =~= chunk@);
    }
    while chunk.len() - start >= 6 && match_at(chunk, &pre, start)
        invariant
            start <= chunk@.len(),
            pre@ == ascii_seq("data: "@),
            pre@.len() == 6,
            strip_data_prefixes(chunk@) == strip_data_prefixes(chunk@.skip(start as int)),
        decreases chunk@.len() - start,
    {
        proof {
            let suf = chunk@.skip(start as int);
            assert(suf.subrange(0, 6) =~= chunk@.subrange(start as int, start + 6));
            assert(suf.skip(6) =~= chunk@.skip(start + 6));
        }
        start += 6;
    }
    proof {
        let suf = chunk@.skip(start as int);
        if suf.len() >= 6 {
            assert(suf.subrange(0, 6) =~= chunk@.subrange(start as int, start + 6));
        }
        assert(strip_data_prefixes(suf) == suf);
    }
    let stripped = sub_vec(chunk, start, chunk.len());
    proof {
        assert(stripped@ =~= chunk@.skip(start as int));
    }
    let a = exec_ws_end(&stripped, 0);
    if a == stripped.len() {
        proof {
            assert(trim_bytes(stripped@) =~= Seq::<u8>::empty());
        }
        return Vec::new();
    }
    let mut b = stripped.len();
    while b > 0 && is_ws_b(stripped[b - 1])
        invariant
            0 <= b <= stripped@.len(),
            ws_start(stripped@, stripped@.len() as int) == ws_start(stripped@, b as int),
        decreases b,
    {
        b -= 1;
    }
    proof {
        lemma_ws_end(stripped@, 0);
        lemma_ws_start_past(stripped@, stripped@.len() as int, a as int);
    }
    sub_vec(&stripped, a, b)
}

/// The termination marker as bytes.
pub fn done_vec() -> (r: Vec<u8>)
    ensures
        r@ == done_bytes(),
{
    proof {
        reveal_strlit("data: [DONE]");
    }
    lit_bytes("data: [DONE]")
}

/// Reshapes one received chunk, or reports that it carries no text: strips
/// and trims it, and either re-wraps the text the response shape holds or
/// gives `None` for a blank or shapeless chunk.
pub fn parse_and_transform_chunk(chunk: &Vec<u8>) -> (r: Option<Vec<u8>>)
    ensures
        ({
            let t = trim_bytes(strip_data_prefixes(chunk@));
            match r {
                Some(v) => t.len() > 0 && spec_extract_text(t) is Some && v@ == wrap_text(
                    spec_extract_text(t)->Some_0,
                ),
                None => t.len() == 0 || spec_extract_text(t) is None,
            }
        }),
{
    let t = strip_and_trim(chunk);
    if t.len() == 0 {
        return None;
    }
    let txt = match extract_text(&t) {
        Some(txt) => txt,
        None => {
            return None;
        },
    };
    proof {
        reveal_strlit("data: {\"choices\":[{\"index\":0,\"delta\":{\"content\":");
        reveal_strlit("}}]}");
        reveal_strlit("\n\n");
    }
    let mut out: Vec<u8> = Vec::new();
    append_lit(&mut out, "data: {\"choices\":[{\"index\":0,\"delta\":{\"content\":");
    crate::request::append_json_str(&mut out, &txt);
    append_lit(&mut out, "}}]}");
    append_lit(&mut out, "\n\n");
    proof {
        assert(out@ =~= wrap_text(txt@));
    }
    Some(out)
}

/// What every chunk of the tiered provider's stream becomes: the canonical
/// reshaped line, or the termination marker for a blank or shapeless chunk.
pub fn transform_chunk(chunk: &Vec<u8>) -> (r: Vec<u8>)
    ensures
        r@ == spec_transform(chunk@),
{
    match parse_and_transform_chunk(chunk) {
        Some(v) => v,
        None => done_vec(),
    }
}

/// Copies a chunk through unchanged.
fn copy_chunk(chunk: &Vec<u8>) -> (r: Vec<u8>)
    ensures
        r@ == chunk@,
{
    let mut r: Vec<u8> = Vec::new();
    r.extend_from_slice(chunk.as_slice());
    proof {
        assert(r@ =~= chunk@);
    }
    r
}

/// One chunk of the outbound stream: the tiered provider's chunks are
/// reshaped, every other provider's chunks pass through unchanged.
pub fn translate_chunk(tiered: bool, chunk: &Vec<u8>) -> (r: Vec<u8>)
    ensures
        tiered ==> r@ == spec_transform(chunk@),
        !tiered ==> r@ == chunk@,
{
    if tiered {
        transform_chunk(chunk)
    } else {
        copy_chunk(chunk)
    }
}

/// A whole upstream stream translated chunk by chunk. For the tiered
/// provider every chunk is reshaped and exactly one termination marker is
/// appended at the end, however the upstream stream ended; for the other
/// providers the stream passes through unchanged.
pub fn translate_stream(tiered: bool, chunks: &Vec<Vec<u8>>) -> (r: Vec<Vec<u8>>)
    ensures
        tiered ==> r@.len() == chunks@.len() + 1,
        tiered ==> forall|i: int|
            0 <= i < chunks@.len() ==> #[trigger] r@[i]@ == spec_transform(chunks@[i]@),
        tiered ==> r@[chunks@.len() as int]@ == done_bytes(),
        !tiered ==> r@.len() == chunks@.len(),
        !tiered ==> forall|i: int| 0 <= i < chunks@.len() ==> #[trigger] r@[i]@ == chunks@[i]@,
{
    let mut r: Vec<Vec<u8>> = Vec::new();
    let mut i: usize = 0;
    while i < chunks.len()
        invariant
            i <= chunks@.len(),
            r@.len() == i,
            tiered ==> forall|j: int|
                0 <= j < i ==> #[trigger] r@[j]@ == spec_transform(chunks@[j]@),
            !tiered ==> forall|j: int| 0 <= j < i ==> #[trigger] r@[j]@ == chunks@[j]@,
        decreases chunks@.len() - i,
    {
        r.push(translate_chunk(tiered, &chunks[i]));
        i += 1;
    }
    if tiered {
        r.push(done_vec());
    }
    r
}


/// Decoding one simple two-byte escape prefixes the decoded byte.
proof fn lemma_unesc_simple(s: Seq<u8>, pos: int, b: u8)
    requires
        0 <= pos,
        pos + 2 <= s.len(),
        s[pos] == 0x5c,
        esc_val(s[pos + 1]) == Some(b),
    ensures
        unesc(s, pos) == opt_prepend(seq![b], unesc(s, pos + 2)),
{
}

/// Decoding one plain (unescaped) byte prefixes it unchanged.
proof fn lemma_unesc_plain(s: Seq<u8>, pos: int)
    requires
        0 <= pos < s.len(),
        s[pos] != 0x22,
        s[pos] != 0x5c,
        s[pos] >= 0x20,
    ensures
        unesc(s, pos) == opt_prepend(seq![s[pos]], unesc(s, pos + 1)),
{
}

/// Decoding a `\u` escape outside the surrogate range prefixes the UTF-8
/// encoding of the spelled scalar.
proof fn lemma_unesc_u4(s: Seq<u8>, pos: int, cp: int)
    requires
        0 <= pos,
        pos + 6 <= s.len(),
        s[pos] == 0x5c,
        s[pos + 1] == 0x75,
        hex4_ok(s, pos + 2),
        cp == hex4(s, pos + 2),
        !(0xd800 <= cp < 0xe000),
    ensures
        unesc(s, pos) == opt_prepend(utf8_enc(cp), unesc(s, pos + 6)),
{
    assert(esc_val(0x75) is None);
}

/// Decoding a surrogate pair of `\u` escapes prefixes the UTF-8 encoding
/// of the combined scalar.
proof fn lemma_unesc_pair(s: Seq<u8>, pos: int, cp: int, cp2: int)
    requires
        0 <= pos,
        pos + 12 <= s.len(),
        s[pos] == 0x5c,
        s[pos + 1] == 0x75,
        hex4_ok(s, pos + 2),
        cp == hex4(s, pos + 2),
        0xd800 <= cp < 0xdc00,
        s[pos + 6] == 0x5c,
        s[pos + 7] == 0x75,
        hex4_ok(s, pos + 8),
        cp2 == hex4(s, pos + 8),
        0xdc00 <= cp2 < 0xe000,
    ensures
        unesc(s, pos) == opt_prepend(
            utf8_enc(0x10000 + (cp - 0xd800) * 0x400 + (cp2 - 0xdc00)),
            unesc(s, pos + 12),
        ),
{
    assert(esc_val(0x75) is None);
}

/// Decoding a `\u00xx` escape written with the library's own hex digits
/// prefixes the byte the digits spell.
proof fn lemma_unesc_hex(s: Seq<u8>, pos: int, b: u8)
    requires
        0 <= pos,
        pos + 6 <= s.len(),
        b < 0x20,
        s[pos] == 0x5c,
        s[pos + 1] == 0x75,
        s[pos + 2] == 0x30,
        s[pos + 3] == 0x30,
        s[pos + 4] == hex_hi(b),
        s[pos + 5] == hex_lo(b),
    ensures
        unesc(s, pos) == opt_prepend(seq![b], unesc(s, pos + 6)),
{
    assert(hex_val(0x30) == 0);
    assert(hex_val(hex_hi(b)) == b / 16);
    assert(hex_val(hex_lo(b)) == b % 16);
    assert(hex4_ok(s, pos + 2));
    assert(hex4(s, pos + 2) == (b / 16) * 16 + b % 16);
    assert(hex4(s, pos + 2) == b as int);
    lemma_unesc_u4(s, pos, b as int);
    assert(utf8_enc(b as int) =~= seq![b]);
}

/// The bytes of one escape at the head of an escaped text, and the rest of
/// the escaped text behind it.
proof fn lemma_escape_head(s: Seq<u8>, pos: int, t: Seq<u8>)
    requires
        0 <= pos,
        t.len() > 0,
        pos + spec_escape(t).len() <= s.len(),
        s.subrange(pos, pos + spec_escape(t).len()) == spec_escape(t),
    ensures
        spec_escape(t) == esc_byte(t[0]) + spec_escape(t.skip(1)),
        s[pos] == esc_byte(t[0])[0],
        esc_byte(t[0]).len() >= 2 ==> s[pos + 1] == esc_byte(t[0])[1],
        esc_byte(t[0]).len() >= 6 ==> s[pos + 2] == esc_byte(t[0])[2],
        esc_byte(t[0]).len() >= 6 ==> s[pos + 3] == esc_byte(t[0])[3],
        esc_byte(t[0]).len() >= 6 ==> s[pos + 4] == esc_byte(t[0])[4],
        esc_byte(t[0]).len() >= 6 ==> s[pos + 5] == esc_byte(t[0])[5],
        s.subrange(pos + esc_byte(t[0]).len(), pos + spec_escape(t).len()) == spec_escape(
            t.skip(1),
        ),
{
    let e = esc_byte(t[0]);
    let t1 = t.skip(1);
    let k = e.len();
    assert(spec_escape(t) == e + spec_escape(t1));
    assert forall|j: int| 0 <= j < spec_escape(t).len() implies s[pos + j] == spec_escape(
        t,
    )[j] by {
        assert(s.subrange(pos, pos + spec_escape(t).len())[j] == s[pos + j]);
    }
    assert forall|i: int| 0 <= i < k implies s[pos + i] == e[i] by {
        assert(spec_escape(t)[i] == e[i]);
    }
    assert forall|i: int| 0 <= i < spec_escape(t1).len() implies s.subrange(
        pos + k,
        pos + spec_escape(t).len(),
    )[i] == spec_escape(t1)[i] by {
        assert(s[pos + k + i] == spec_escape(t)[k + i]);
        assert(spec_escape(t)[k + i] == spec_escape(t1)[i]);
    }
    assert(s.subrange(pos + k, pos + spec_escape(t).len()) =~= spec_escape(t1));
}

/// Decoding the escape at the head of an escaped text prefixes the byte it
/// was written for, whatever the escape's shape.
#[verifier::spinoff_prover]
proof fn lemma_escape_step(s: Seq<u8>, pos: int, t: Seq<u8>)
    requires
        0 <= pos,
        t.len() > 0,
        pos + spec_escape(t).len() <= s.len(),
        s.subrange(pos, pos + spec_escape(t).len()) == spec_escape(t),
    ensures
        unesc(s, pos) == opt_prepend(seq![t[0]], unesc(s, pos + esc_byte(t[0]).len())),
{
    let b = t[0];
    let e = esc_byte(b);
    lemma_escape_head(s, pos, t);
    if b == 0x22 || b == 0x5c || b == 0x08 || b == 0x09 || b == 0x0a || b == 0x0c || b == 0x0d {
        assert(e.len() == 2);
        assert(esc_val(s[pos + 1]) == Some(b));
        lemma_unesc_simple(s, pos, b);
    } else if b < 0x20 {
        assert(e.len() == 6);
        lemma_unesc_hex(s, pos, b);
    } else {
        assert(e =~= seq![b]);
        assert(s[pos] == b);
        lemma_unesc_plain(s, pos);
    }
}

/// The string codec's round trip: text written by the translator's escaper
/// and closed with a quote is decoded back to the original bytes by the
/// reader, whatever follows the quote. So every text the translator can
/// emit inside a `data: ` line is read back exactly.
#[verifier::spinoff_prover]
pub proof fn lemma_escape_unescape(s: Seq<u8>, pos: int, t: Seq<u8>)
    requires
        0 <= pos,
        pos + spec_escape(t).len() < s.len(),
        s.subrange(pos, pos + spec_escape(t).len()) == spec_escape(t),
        s[pos + spec_escape(t).len()] == 0x22,
    ensures
        unesc(s, pos) == Some((t, pos + spec_escape(t).len() + 1)),
    decreases t.len(),
{
    if t.len() == 0 {
        assert(spec_escape(t).len() == 0);
        assert(s[pos] == 0x22);
    } else {
        let b = t[0];
        let t1 = t.skip(1);
        let k = esc_byte(b).len();
        lemma_escape_head(s, pos, t);
        lemma_escape_step(s, pos, t);
        assert(s[pos + k + spec_escape(t1).len()] == 0x22);
        lemma_escape_unescape(s, pos + k, t1);
        assert(seq![b] + t1 =~= t);
    }
}


/// The canonical response shape around one escaped text: exactly one
/// candidate with one part.
pub open spec fn gemini_frame(esc: Seq<u8>) -> Seq<u8> {
    ascii_seq("{\"candidates\":[{\"content\":{\"parts\":[{\"text\":\""@) + esc + ascii_seq(
        "\"}]}}]}"@,
    )
}

/// The bracket reader crosses escaped string content without leaving the
/// string: every escape the writer emits is consumed inside it.
proof fn lemma_bracket_cross(s: Seq<u8>, pos: int, depth: int, t: Seq<u8>)
    requires
        0 <= pos,
        pos + spec_escape(t).len() <= s.len(),
        s.subrange(pos, pos + spec_escape(t).len()) == spec_escape(t),
    ensures
        bracket_end(s, pos, depth, true, false) == bracket_end(
            s,
            pos + spec_escape(t).len(),
            depth,
            true,
            false,
        ),
    decreases t.len(),
{
    if t.len() == 0 {
    } else {
        let b = t[0];
        let e = esc_byte(b);
        let t1 = t.skip(1);
        let k = e.len();
        lemma_escape_head(s, pos, t);
        lemma_bracket_cross(s, pos + k, depth, t1);
        if b == 0x22 || b == 0x5c {
            assert(s[pos] == 0x5c);
            assert(bracket_end(s, pos, depth, true, false) == bracket_end(
                s,
                pos + 1,
                depth,
                true,
                true,
            ));
            assert(bracket_end(s, pos + 1, depth, true, true) == bracket_end(
                s,
                pos + 2,
                depth,
                true,
                false,
            ));
        } else if b == 0x08 || b == 0x09 || b == 0x0a || b == 0x0c || b == 0x0d {
            assert(s[pos] == 0x5c);
            assert(bracket_end(s, pos, depth, true, false) == bracket_end(
                s,
                pos + 1,
                depth,
                true,
                true,
            ));
            assert(bracket_end(s, pos + 1, depth, true, true) == bracket_end(
                s,
                pos + 2,
                depth,
                true,
                false,
            ));
        } else if b < 0x20 {
            assert(k == 6);
            assert(s[pos] == 0x5c);
            assert(s[pos + 1] == 0x75);
            assert(s[pos + 2] == 0x30);
            assert(s[pos + 3] == 0x30);
            assert(s[pos + 4] == hex_hi(b));
            assert(s[pos + 5] == hex_lo(b));
            assert(hex_hi(b) != 0x22 && hex_hi(b) != 0x5c);
            assert(hex_lo(b) != 0x22 && hex_lo(b) != 0x5c);
            assert(bracket_end(s, pos, depth, true, false) == bracket_end(
                s,
                pos + 1,
                depth,
                true,
                true,
            ));
            assert(bracket_end(s, pos + 1, depth, true, true) == bracket_end(
                s,
                pos + 2,
                depth,
                true,
                false,
            ));
            assert(bracket_end(s, pos + 2, depth, true, false) == bracket_end(
                s,
                pos + 3,
                depth,
                true,
                false,
            ));
            assert(bracket_end(s, pos + 3, depth, true, false) == bracket_end(
                s,
                pos + 4,
                depth,
                true,
                false,
            ));
            assert(bracket_end(s, pos + 4, depth, true, false) == bracket_end(
                s,
                pos + 5,
                depth,
                true,
                false,
            ));
            assert(bracket_end(s, pos + 5, depth, true, false) == bracket_end(
                s,
                pos + 6,
                depth,
                true,
                false,
            ));
        } else {
            assert(e =~= seq![b]);
            assert(s[pos + 0] == e[0]);
            assert(s[pos] == b);
            assert(bracket_end(s, pos, depth, true, false) == bracket_end(
                s,
                pos + 1,
                depth,
                true,
                false,
            ));
        }
    }
}

/// The bracket reader closes the canonical frame exactly at its end.
proof fn lemma_frame_bracket(t: Seq<u8>)
    ensures
        value_end(gemini_frame(spec_escape(t)), 0) == Some(gemini_frame(spec_escape(t)).len() as int),
{
    reveal_strlit("{\"candidates\":[{\"content\":{\"parts\":[{\"text\":\"");
    reveal_strlit("\"}]}}]}");
    let pa = ascii_seq("{\"candidates\":[{\"content\":{\"parts\":[{\"text\":\""@);
    let sb = ascii_seq("\"}]}}]}"@);
    let e = spec_escape(t);
    let el = e.len() as int;
    let s = gemini_frame(e);
    assert(s == pa + e + sb);
    {
        assert(pa.len() == 45);
        assert(sb.len() == 7);
        assert(s[0] == 0x7b);
        assert(s[1] == 0x22);
        assert(s[2] == 0x63);
        assert(s[3] == 0x61);
        assert(s[4] == 0x6e);
        assert(s[5] == 0x64);
        assert(s[6] == 0x69);
        assert(s[7] == 0x64);
        assert(s[8] == 0x61);
        assert(s[9] == 0x74);
        assert(s[10] == 0x65);
        assert(s[11] == 0x73);
        assert(s[12] == 0x22);
        assert(s[13] == 0x3a);
        assert(s[14] == 0x5b);
        assert(s[15] == 0x7b);
        assert(s[16] == 0x22);
        assert(s[17] == 0x63);
        assert(s[18] == 0x6f);
        assert(s[19] == 0x6e);
        assert(s[20] == 0x74);
        assert(s[21] == 0x65);
        assert(s[22] == 0x6e);
        assert(s[23] == 0x74);
        assert(s[24] == 0x22);
        assert(s[25] == 0x3a);
        assert(s[26] == 0x7b);
        assert(s[27] == 0x22);
        assert(s[28] == 0x70);
        assert(s[29] == 0x61);
        assert(s[30] == 0x72);
        assert(s[31] == 0x74);
        assert(s[32] == 0x73);
        assert(s[33] == 0x22);
        assert(s[34] == 0x3a);
        assert(s[35] == 0x5b);
        assert(s[36] == 0x7b);
        assert(s[37] == 0x22);
        assert(s[38] == 0x74);
        assert(s[39] == 0x65);
        assert(s[40] == 0x78);
        assert(s[41] == 0x74);
        assert(s[42] == 0x22);
        assert(s[43] == 0x3a);
        assert(s[44] == 0x22);
    }
    let q = 45 + el;
    assert forall|j: int| 0 <= j < 7 implies s[q + j] == sb[j] by {
        assert((pa + e + sb)[q + j] == sb[j]);
    }
    assert(s[q + 0] == 0x22);
    assert(s[q + 1] == 0x7d);
    assert(s[q + 2] == 0x5d);
    assert(s[q + 3] == 0x7d);
    assert(s[q + 4] == 0x7d);
    assert(s[q + 5] == 0x5d);
    assert(s[q + 6] == 0x7d);
    assert(bracket_end(s, 1, 1, false, false) == bracket_end(s, 2, 1, true, false));
    assert(bracket_end(s, 2, 1, true, false) == bracket_end(s, 3, 1, true, false));
    assert(bracket_end(s, 3, 1, true, false) == bracket_end(s, 4, 1, true, false));
    assert(bracket_end(s, 4, 1, true, false) == bracket_end(s, 5, 1, true, false));
    assert(bracket_end(s, 5, 1, true, false) == bracket_end(s, 6, 1, true, false));
    assert(bracket_end(s, 6, 1, true, false) == bracket_end(s, 7, 1, true, false));
    assert(bracket_end(s, 7, 1, true, false) == bracket_end(s, 8, 1, true, false));
    assert(bracket_end(s, 8, 1, true, false) == bracket_end(s, 9, 1, true, false));
    assert(bracket_end(s, 9, 1, true, false) == bracket_end(s, 10, 1, true, false));
    assert(bracket_end(s, 10, 1, true, false) == bracket_end(s, 11, 1, true, false));
    assert(bracket_end(s, 11, 1, true, false) == bracket_end(s, 12, 1, true, false));
    assert(bracket_end(s, 12, 1, true, false) == bracket_end(s, 13, 1, false, false));
    assert(bracket_end(s, 13, 1, false, false) == bracket_end(s, 14, 1, false, false));
    assert(bracket_end(s, 14, 1, false, false) == bracket_end(s, 15, 2, false, false));
    assert(bracket_end(s, 15, 2, false, false) == bracket_end(s, 16, 3, false, false));
    assert(bracket_end(s, 16, 3, false, false) == bracket_end(s, 17, 3, true, false));
    assert(bracket_end(s, 17, 3, true, false) == bracket_end(s, 18, 3, true, false));
    assert(bracket_end(s, 18, 3, true, false) == bracket_end(s, 19, 3, true, false));
    assert(bracket_end(s, 19, 3, true, false) == bracket_end(s, 20, 3, true, false));
    assert(bracket_end(s, 20, 3, true, false) == bracket_end(s, 21, 3, true, false));
    assert(bracket_end(s, 21, 3, true, false) == bracket_end(s, 22, 3, true, false));
    assert(bracket_end(s, 22, 3, true, false) == bracket_end(s, 23, 3, true, false));
    assert(bracket_end(s, 23, 3, true, false) == bracket_end(s, 24, 3, true, false));
    assert(bracket_end(s, 24, 3, true, false) == bracket_end(s, 25, 3, false, false));
    assert(bracket_end(s, 25, 3, false, false) == bracket_end(s, 26, 3, false, false));
    assert(bracket_end(s, 26, 3, false, false) == bracket_end(s, 27, 4, false, false));
    assert(bracket_end(s, 27, 4, false, false) == bracket_end(s, 28, 4, true, false));
    assert(bracket_end(s, 28, 4, true, false) == bracket_end(s, 29, 4, true, false));
    assert(bracket_end(s, 29, 4, true, false) == bracket_end(s, 30, 4, true, false));
    assert(bracket_end(s, 30, 4, true, false) == bracket_end(s, 31, 4, true, false));
    assert(bracket_end(s, 31, 4, true, false) == bracket_end(s, 32, 4, true, false));
    assert(bracket_end(s, 32, 4, true, false) == bracket_end(s, 33, 4, true, false));
    assert(bracket_end(s, 33, 4, true, false) == bracket_end(s, 34, 4, false, false));
    assert(bracket_end(s, 34, 4, false, false) == bracket_end(s, 35, 4, false, false));
    assert(bracket_end(s, 35, 4, false, false) == bracket_end(s, 36, 5, false, false));
    assert(bracket_end(s, 36, 5, false, false) == bracket_end(s, 37, 6, false, false));
    assert(bracket_end(s, 37, 6, false, false) == bracket_end(s, 38, 6, true, false));
    assert(bracket_end(s, 38, 6, true, false) == bracket_end(s, 39, 6, true, false));
    assert(bracket_end(s, 39, 6, true, false) == bracket_end(s, 40, 6, true, false));
    assert(bracket_end(s, 40, 6, true, false) == bracket_end(s, 41, 6, true, false));
    assert(bracket_end(s, 41, 6, true, false) == bracket_end(s, 42, 6, true, false));
    assert(bracket_end(s, 42, 6, true, false) == bracket_end(s, 43, 6, false, false));
    assert(bracket_end(s, 43, 6, false, false) == bracket_end(s, 44, 6, false, false));
    assert(bracket_end(s, 44, 6, false, false) == bracket_end(s, 45, 6, true, false));
    assert(s.subrange(45, 45 + el) =~= e);
    lemma_bracket_cross(s, 45, 6, t);
    assert(bracket_end(s, 45, 6, true, false) == bracket_end(s, q, 6, true, false));
    assert(bracket_end(s, q + 0, 6, true, false) == bracket_end(s, q + 1, 6, false, false));
    assert(bracket_end(s, q + 1, 6, false, false) == bracket_end(s, q + 2, 5, false, false));
    assert(bracket_end(s, q + 2, 5, false, false) == bracket_end(s, q + 3, 4, false, false));
    assert(bracket_end(s, q + 3, 4, false, false) == bracket_end(s, q + 4, 3, false, false));
    assert(bracket_end(s, q + 4, 3, false, false) == bracket_end(s, q + 5, 2, false, false));
    assert(bracket_end(s, q + 5, 2, false, false) == bracket_end(s, q + 6, 1, false, false));
    assert(bracket_end(s, q + 6, 1, false, false) == Some(q + 7));
    assert(s.len() == q + 7);
    assert(bracket_end(s, 1, 1, false, false) == Some(s.len() as int));
    assert(value_end(s, 0) == Some(s.len() as int));
}

/// The key readers walk the canonical frame to the text value.
proof fn lemma_frame_keys(t: Seq<u8>)
    ensures
        obj_find(gemini_frame(spec_escape(t)), 0, key_candidates()) == Some(14int),
        arr_first(gemini_frame(spec_escape(t)), 14) == Some(15int),
        obj_find(gemini_frame(spec_escape(t)), 15, key_content()) == Some(26int),
        obj_find(gemini_frame(spec_escape(t)), 26, key_parts()) == Some(35int),
        arr_first(gemini_frame(spec_escape(t)), 35) == Some(36int),
        obj_find(gemini_frame(spec_escape(t)), 36, key_text()) == Some(44int),
{
    reveal_strlit("{\"candidates\":[{\"content\":{\"parts\":[{\"text\":\"");
    reveal_strlit("\"}]}}]}");
    let pa = ascii_seq("{\"candidates\":[{\"content\":{\"parts\":[{\"text\":\""@);
    let sb = ascii_seq("\"}]}}]}"@);
    let e = spec_escape(t);
    let el = e.len() as int;
    let s = gemini_frame(e);
    assert(s == pa + e + sb);
    assert(pa.len() == 45);
    assert(sb.len() == 7);
    assert(s[0] == 0x7b);
    assert(s[1] == 0x22);
    assert(s[2] == 0x63);
    assert(s[3] == 0x61);
    assert(s[4] == 0x6e);
    assert(s[5] == 0x64);
    assert(s[6] == 0x69);
    assert(s[7] == 0x64);
    assert(s[8] == 0x61);
    assert(s[9] == 0x74);
    assert(s[10] == 0x65);
    assert(s[11] == 0x73);
    assert(s[12] == 0x22);
    assert(s[13] == 0x3a);
    assert(s[14] == 0x5b);
    assert(s[15] == 0x7b);
    assert(s[16] == 0x22);
    assert(s[17] == 0x63);
    assert(s[18] == 0x6f);
    assert(s[19] == 0x6e);
    assert(s[20] == 0x74);
    assert(s[21] == 0x65);
    assert(s[22] == 0x6e);
    assert(s[23] == 0x74);
    assert(s[24] == 0x22);
    assert(s[25] == 0x3a);
    assert(s[26] == 0x7b);
    assert(s[27] == 0x22);
    assert(s[28] == 0x70);
    assert(s[29] == 0x61);
    assert(s[30] == 0x72);
    assert(s[31] == 0x74);
    assert(s[32] == 0x73);
    assert(s[33] == 0x22);
    assert(s[34] == 0x3a);
    assert(s[35] == 0x5b);
    assert(s[36] == 0x7b);
    assert(s[37] == 0x22);
    assert(s[38] == 0x74);
    assert(s[39] == 0x65);
    assert(s[40] == 0x78);
    assert(s[41] == 0x74);
    assert(s[42] == 0x22);
    assert(s[43] == 0x3a);
    assert(s[44] == 0x22);
    reveal_strlit("candidates");
    reveal_strlit("content");
    reveal_strlit("parts");
    reveal_strlit("text");
    assert(ws_end(s, 1) == 1);
    assert(ws_end(s, 13) == 13);
    assert(ws_end(s, 14) == 14);
    assert(ws_end(s, 15) == 15);
    assert(ws_end(s, 16) == 16);
    assert(ws_end(s, 25) == 25);
    assert(ws_end(s, 26) == 26);
    assert(ws_end(s, 27) == 27);
    assert(ws_end(s, 34) == 34);
    assert(ws_end(s, 35) == 35);
    assert(ws_end(s, 36) == 36);
    assert(ws_end(s, 37) == 37);
    assert(ws_end(s, 43) == 43);
    assert(ws_end(s, 44) == 44);
    assert(str_end(s, 2) == str_end(s, 3));
    assert(str_end(s, 3) == str_end(s, 4));
    assert(str_end(s, 4) == str_end(s, 5));
    assert(str_end(s, 5) == str_end(s, 6));
    assert(str_end(s, 6) == str_end(s, 7));
    assert(str_end(s, 7) == str_end(s, 8));
    assert(str_end(s, 8) == str_end(s, 9));
    assert(str_end(s, 9) == str_end(s, 10));
    assert(str_end(s, 10) == str_end(s, 11));
    assert(str_end(s, 11) == str_end(s, 12));
    assert(str_end(s, 12) == Some(13int));
    assert(str_end(s, 2) == Some(13int));
    assert(str_end(s, 17) == str_end(s, 18));
    assert(str_end(s, 18) == str_end(s, 19));
    assert(str_end(s, 19) == str_end(s, 20));
    assert(str_end(s, 20) == str_end(s, 21));
    assert(str_end(s, 21) == str_end(s, 22));
    assert(str_end(s, 22) == str_end(s, 23));
    assert(str_end(s, 23) == str_end(s, 24));
    assert(str_end(s, 24) == Some(25int));
    assert(str_end(s, 17) == Some(25int));
    assert(str_end(s, 28) == str_end(s, 29));
    assert(str_end(s, 29) == str_end(s, 30));
    assert(str_end(s, 30) == str_end(s, 31));
    assert(str_end(s, 31) == str_end(s, 32));
    assert(str_end(s, 32) == str_end(s, 33));
    assert(str_end(s, 33) == Some(34int));
    assert(str_end(s, 28) == Some(34int));
    assert(str_end(s, 38) == str_end(s, 39));
    assert(str_end(s, 39) == str_end(s, 40));
    assert(str_end(s, 40) == str_end(s, 41));
    assert(str_end(s, 41) == str_end(s, 42));
    assert(str_end(s, 42) == Some(43int));
    assert(str_end(s, 38) == Some(43int));
    assert(s.subrange(2, 12) =~= key_candidates());
    assert(s.subrange(17, 24) =~= key_content());
    assert(s.subrange(28, 33) =~= key_parts());
    assert(s.subrange(38, 42) =~= key_text());
    assert(entries_find(s, 1, key_candidates()) == Some(14int));
    assert(obj_find(s, 0, key_candidates()) == Some(14int));
    assert(arr_first(s, 14) == Some(15int));
    assert(entries_find(s, 16, key_content()) == Some(26int));
    assert(obj_find(s, 15, key_content()) == Some(26int));
    assert(entries_find(s, 27, key_parts()) == Some(35int));
    assert(obj_find(s, 26, key_parts()) == Some(35int));
    assert(arr_first(s, 35) == Some(36int));
    assert(entries_find(s, 37, key_text()) == Some(44int));
    assert(obj_find(s, 36, key_text()) == Some(44int));
}


/// The reshape round trip: a canonical provider chunk that frames the
/// escaped form of any text is translated into exactly the canonical
/// `data: ` line wrapping that text.
pub proof fn lemma_reshape_round_trip(t: Seq<u8>)
    ensures
        spec_extract_text(gemini_frame(spec_escape(t))) == Some(t),
        spec_transform(gemini_frame(spec_escape(t))) == wrap_text(t),
{
    reveal_strlit("{\"candidates\":[{\"content\":{\"parts\":[{\"text\":\"");
    reveal_strlit("\"}]}}]}");
    reveal_strlit("data: ");
    let pa = ascii_seq("{\"candidates\":[{\"content\":{\"parts\":[{\"text\":\""@);
    let sb = ascii_seq("\"}]}}]}"@);
    let e = spec_escape(t);
    let el = e.len() as int;
    let s = gemini_frame(e);
    assert(s == pa + e + sb);
    assert(pa.len() == 45);
    assert(sb.len() == 7);
    let q = 45 + el;
    assert(s.len() == q + 7);
    assert(s[0] == 0x7b);
    assert(s[44] == 0x22);
    assert(s[q] == sb[0]);
    assert(s[q] == 0x22);
    assert(s[q + 6] == sb[6]);
    assert(s[q + 6] == 0x7d);
    assert(s.subrange(45, 45 + el) =~= e);
    lemma_frame_bracket(t);
    lemma_frame_keys(t);
    assert(ws_end(s, 0) == 0);
    assert(ws_end(s, s.len() as int) == s.len());
    lemma_escape_unescape(s, 45, t);
    assert(unesc(s, 45) == Some((t, q + 1)));
    assert(spec_extract_text(s) == Some(t));
    assert(s.subrange(0, 6)[0] == s[0]);
    assert(ascii_seq("data: "@)[0] == 0x64);
    assert(s.subrange(0, 6) != ascii_seq("data: "@));
    assert(strip_data_prefixes(s) == s);
    assert(!is_ws(s[s.len() - 1]));
    assert(ws_start(s, s.len() as int) == s.len());
    assert(trim_bytes(s) =~= s);
    assert(trim_bytes(strip_data_prefixes(s)) == s);
    assert(spec_transform(s) == wrap_text(t));
}

} // verus!
