//! Building the provider-specific request payloads.
//!
//! Two wire shapes exist. The chat-completions shape carries the model, a
//! streaming flag and the messages as role/content pairs. The
//! content-generation shape of the tiered provider remaps roles first: a
//! system message is not emitted as a turn of its own but captured (with the
//! assistant-brand phrase replaced by the target provider's name) and
//! prefixed to the next non-assistant message, an assistant message becomes
//! a "model" turn, and every other message keeps its role. Both payloads are
//! produced as UTF-8 bytes of the exact JSON text sent upstream.

use vstd::prelude::*;
use vstd::utf8::encode_utf8;
use crate::bytes::{
    append_escaped, append_lit, ascii_seq, lit_bytes, replace_brand, spec_escape, spec_replaced,
    str_to_bytes,
};
use crate::models::{clone_string, Message};
use crate::truncate::conv_view;

verus! {

/// A byte sequence written as a JSON string token: quoted and escaped.
pub open spec fn json_str(t: Seq<u8>) -> Seq<u8> {
    ascii_seq("\""@) + spec_escape(t) + ascii_seq("\""@)
}

/// Appends `t` as a JSON string token.
pub fn append_json_str(out: &mut Vec<u8>, t: &Vec<u8>)
    ensures
        final(out)@ == old(out)@ + json_str(t@),
{
    proof {
        reveal_strlit("\"");
    }
    append_lit(out, "\"");
    append_escaped(out, t);
    append_lit(out, "\"");
    proof {
        assert(out@ =~= old(out)@ + json_str(t@));
    }
}

/// One message of the chat-completions shape.
pub open spec fn chat_message_json(role: Seq<u8>, content: Seq<u8>) -> Seq<u8> {
    ascii_seq("{\"role\":"@) + json_str(role) + ascii_seq(",\"content\":"@) + json_str(content)
        + ascii_seq("}"@)
}

/// The messages after the first, each preceded by a comma.
pub open spec fn chat_tail_json(ms: Seq<(Seq<u8>, Seq<u8>)>) -> Seq<u8>
    decreases ms.len(),
{
    if ms.len() == 0 {
        Seq::empty()
    } else {
        ascii_seq(","@) + chat_message_json(ms[0].0, ms[0].1) + chat_tail_json(ms.skip(1))
    }
}

/// A comma-separated list of chat-completions messages.
pub open spec fn chat_list_json(ms: Seq<(Seq<u8>, Seq<u8>)>) -> Seq<u8> {
    if ms.len() == 0 {
        Seq::empty()
    } else {
        chat_message_json(ms[0].0, ms[0].1) + chat_tail_json(ms.skip(1))
    }
}

/// The whole chat-completions payload.
pub open spec fn chat_payload_json(model: Seq<u8>, ms: Seq<(Seq<u8>, Seq<u8>)>) -> Seq<u8> {
    ascii_seq("{\"model\":"@) + json_str(model) + ascii_seq(",\"stream\":true,\"messages\":["@)
        + chat_list_json(ms) + ascii_seq("]}"@)
}

/// Role/content pairs as their UTF-8 bytes.
pub open spec fn msgs_bytes(ms: Seq<(Seq<char>, Seq<char>)>) -> Seq<(Seq<u8>, Seq<u8>)> {
    ms.map(|_i: int, m: (Seq<char>, Seq<char>)| (encode_utf8(m.0), encode_utf8(m.1)))
}

proof fn lemma_chat_tail_snoc(ms: Seq<(Seq<u8>, Seq<u8>)>, m: (Seq<u8>, Seq<u8>))
    ensures
        chat_tail_json(ms.push(m)) == chat_tail_json(ms) + ascii_seq(","@) + chat_message_json(
            m.0,
            m.1,
        ),
    decreases ms.len(),
{
    if ms.len() == 0 {
        assert(ms.push(m).skip(1) =~= Seq::<(Seq<u8>, Seq<u8>)>::empty());
        assert(chat_tail_json(Seq::<(Seq<u8>, Seq<u8>)>::empty()) == Seq::<u8>::empty());
        assert(chat_tail_json(ms) == Seq::<u8>::empty());
        assert(chat_tail_json(ms.push(m)) =~= chat_tail_json(ms) + ascii_seq(","@)
            + chat_message_json(m.0, m.1));
    } else {
        assert(ms.push(m).skip(1) =~= ms.skip(1).push(m));
        lemma_chat_tail_snoc(ms.skip(1), m);
        assert(chat_tail_json(ms.push(m)) == ascii_seq(","@) + chat_message_json(
            ms[0].0,
            ms[0].1,
        ) + chat_tail_json(ms.skip(1).push(m)));
        assert(chat_tail_json(ms.push(m)) =~= chat_tail_json(ms) + ascii_seq(","@)
            + chat_message_json(m.0, m.1));
    }
}

proof fn lemma_chat_list_snoc(ms: Seq<(Seq<u8>, Seq<u8>)>, m: (Seq<u8>, Seq<u8>))
    ensures
        ms.len() == 0 ==> chat_list_json(ms.push(m)) == chat_message_json(m.0, m.1),
        ms.len() > 0 ==> chat_list_json(ms.push(m)) == chat_list_json(ms) + ascii_seq(","@)
            + chat_message_json(m.0, m.1),
{
    if ms.len() == 0 {
        assert(ms.push(m).skip(1) =~= Seq::<(Seq<u8>, Seq<u8>)>::empty());
        assert(chat_tail_json(Seq::<(Seq<u8>, Seq<u8>)>::empty()) == Seq::<u8>::empty());
        assert(chat_list_json(ms.push(m)) =~= chat_message_json(m.0, m.1));
    } else {
        assert(ms.push(m).skip(1) =~= ms.skip(1).push(m));
        lemma_chat_tail_snoc(ms.skip(1), m);
        assert(chat_list_json(ms.push(m)) =~= chat_list_json(ms) + ascii_seq(","@)
            + chat_message_json(m.0, m.1));
    }
}

/// Appends one chat-completions message object.
fn append_chat_message(out: &mut Vec<u8>, m: &Message)
    ensures
        final(out)@ == old(out)@ + chat_message_json(encode_utf8(m.role@), encode_utf8(m.content@)),
{
    proof {
        reveal_strlit("{\"role\":");
        reveal_strlit(",\"content\":");
        reveal_strlit("}");
    }
    append_lit(out, "{\"role\":");
    let role_b = str_to_bytes(m.role.as_str());
    append_json_str(out, &role_b);
    append_lit(out, ",\"content\":");
    let content_b = str_to_bytes(m.content.as_str());
    append_json_str(out, &content_b);
    append_lit(out, "}");
    proof {
        assert(out@ =~= old(out)@ + chat_message_json(
            encode_utf8(m.role@),
            encode_utf8(m.content@),
        ));
    }
}

/// Builds the chat-completions payload: the model, the streaming flag set,
/// and the messages in order with their roles and contents escaped.
pub fn build_chat_payload(model: &str, messages: &Vec<Message>) -> (r: Vec<u8>)
    ensures
        r@ == chat_payload_json(encode_utf8(model@), msgs_bytes(conv_view(messages@))),
{
    let ghost msb = msgs_bytes(conv_view(messages@));
    proof {
        reveal_strlit("{\"model\":");
        reveal_strlit(",\"stream\":true,\"messages\":[");
        reveal_strlit("]}");
        reveal_strlit(",");
    }
    let mut out: Vec<u8> = Vec::new();
    append_lit(&mut out, "{\"model\":");
    let model_b = str_to_bytes(model);
    append_json_str(&mut out, &model_b);
    append_lit(&mut out, ",\"stream\":true,\"messages\":[");
    let ghost prefix = out@;
    let mut i: usize = 0;
    proof {
        assert(msb.subrange(0, 0) =~= Seq::<(Seq<u8>, Seq<u8>)>::empty());
        assert(out@ =~= prefix + chat_list_json(msb.subrange(0, 0)));
    }
    while i < messages.len()
        invariant
            i <= messages@.len(),
            msb == msgs_bytes(conv_view(messages@)),
            msb.len() == messages@.len(),
            out@ == prefix + chat_list_json(msb.subrange(0, i as int)),
        decreases messages@.len() - i,
    {
        let ghost mb = msb[i as int];
        if i > 0 {
            proof {
                reveal_strlit(",");
            }
            append_lit(&mut out, ",");
        }
        append_chat_message(&mut out, &messages[i]);
        proof {
            assert(mb == (encode_utf8(messages@[i as int].role@), encode_utf8(
                messages@[i as int].content@,
            )));
            lemma_chat_list_snoc(msb.subrange(0, i as int), mb);
            assert(msb.subrange(0, i as int).push(mb) =~= msb.subrange(0, i + 1));
            assert(out@ =~= prefix + chat_list_json(msb.subrange(0, i + 1)));
        }
        i += 1;
    }
    append_lit(&mut out, "]}");
    proof {
        assert(msb.subrange(0, msb.len() as int) =~= msb);
        assert(out@ =~= chat_payload_json(encode_utf8(model@), msb));
    }
    out
}

/// One turn of the content-generation shape: a role and the text of its
/// single part, the text held as UTF-8 bytes.
pub struct GeminiTurn {
    pub role: String,
    pub text: Vec<u8>,
}

impl GeminiTurn {
    pub open spec fn view_pair(self) -> (Seq<char>, Seq<u8>) {
        (self.role@, self.text@)
    }
}

/// The (role, text) pairs a sequence of turns stands for.
pub open spec fn turns_view(ts: Seq<GeminiTurn>) -> Seq<(Seq<char>, Seq<u8>)> {
    ts.map(|_i: int, t: GeminiTurn| t.view_pair())
}

/// The role remapping of the content-generation shape, carrying the
/// captured system text: a system message replaces the pending text with its
/// own (brand phrase substituted) and emits nothing; an assistant message
/// becomes a "model" turn and leaves the pending text alone; any other
/// message keeps its role, takes the pending text joined by one space in
/// front of its content if one is captured, and clears it.
pub open spec fn spec_gemini_turns(
    ms: Seq<(Seq<char>, Seq<char>)>,
    pending: Option<Seq<u8>>,
) -> Seq<(Seq<char>, Seq<u8>)>
    decreases ms.len(),
{
    if ms.len() == 0 {
        Seq::empty()
    } else {
        let role = ms[0].0;
        let content_b = encode_utf8(ms[0].1);
        if role == "system"@ {
            spec_gemini_turns(ms.skip(1), Some(spec_replaced(content_b)))
        } else if role == "assistant"@ {
            seq![("model"@, content_b)] + spec_gemini_turns(ms.skip(1), pending)
        } else {
            let text = match pending {
                Some(p) => p + ascii_seq(" "@) + content_b,
                None => content_b,
            };
            seq![(role, text)] + spec_gemini_turns(ms.skip(1), None)
        }
    }
}

/// The ghost value of a pending capture.
pub open spec fn pending_view(p: Option<Vec<u8>>) -> Option<Seq<u8>> {
    match p {
        Some(v) => Some(v@),
        None => None,
    }
}

/// Remaps a conversation into content-generation turns, merging each
/// captured system text into the next non-assistant message exactly once.
pub fn build_gemini_contents(messages: &Vec<Message>) -> (r: Vec<GeminiTurn>)
    ensures
        turns_view(r@) == spec_gemini_turns(conv_view(messages@), None),
{
    let ghost cv = conv_view(messages@);
    let sys_tag = String::from_str("system");
    let asst_tag = String::from_str("assistant");
    let mut turns: Vec<GeminiTurn> = Vec::new();
    let mut pending: Option<Vec<u8>> = None;
    let mut i: usize = 0;
    proof {
        assert(cv.skip(0) =~= cv);
        assert(turns_view(turns@) =~= Seq::<(Seq<char>, Seq<u8>)>::empty());
        assert(Seq::<(Seq<char>, Seq<u8>)>::empty() + spec_gemini_turns(cv, None)
            =~= spec_gemini_turns(cv, None));
    }
    while i < messages.len()
        invariant
            i <= messages@.len(),
            cv == conv_view(messages@),
            cv.len() == messages@.len(),
            sys_tag@ == "system"@,
            asst_tag@ == "assistant"@,
            spec_gemini_turns(cv, None) == turns_view(turns@) + spec_gemini_turns(
                cv.skip(i as int),
                pending_view(pending),
            ),
        decreases messages@.len() - i,
    {
        proof {
            assert(cv.skip(i as int)[0] == cv[i as int]);
            assert(cv.skip(i as int).skip(1) =~= cv.skip(i + 1));
        }
        let m = &messages[i];
        let content_b = str_to_bytes(m.content.as_str());
        if m.role == sys_tag {
            pending = Some(replace_brand(&content_b));
        } else if m.role == asst_tag {
            let turn = GeminiTurn { role: String::from_str("model"), text: content_b };
            proof {
                assert(spec_gemini_turns(cv.skip(i as int), pending_view(pending)) == seq![
                    ("model"@, encode_utf8(m.content@)),
                ] + spec_gemini_turns(cv.skip(i + 1), pending_view(pending)));
                assert(turns_view(turns@.push(turn)) =~= turns_view(turns@).push(
                    turn.view_pair(),
                ));
                assert(turns_view(turns@) + (seq![("model"@, encode_utf8(m.content@))]
                    + spec_gemini_turns(cv.skip(i + 1), pending_view(pending))) =~= turns_view(
                    turns@.push(turn),
                ) + spec_gemini_turns(cv.skip(i + 1), pending_view(pending)));
            }
            turns.push(turn);
        } else {
            let cur = pending;
            pending = None;
            let ghost cur_v = pending_view(cur);
            let ghost spec_text: Seq<u8> = match cur_v {
                Some(pv) => pv + ascii_seq(" "@) + encode_utf8(m.content@),
                None => encode_utf8(m.content@),
            };
            let text: Vec<u8> = match cur {
                Some(mut p) => {
                    let ghost p0 = p@;
                    p.push(0x20);
                    p.extend_from_slice(content_b.as_slice());
                    proof {
                        reveal_strlit(" ");
                        assert(ascii_seq(" "@) =~= seq![0x20u8]);
                        assert(p@ =~= p0 + ascii_seq(" "@) + encode_utf8(m.content@));
                    }
                    p
                },
                None => content_b,
            };
            let turn = GeminiTurn { role: clone_string(&m.role), text };
            proof {
                assert(cv[i as int] == (m.role@, m.content@));
                assert(text@ == spec_text);
                assert(spec_gemini_turns(cv.skip(i as int), cur_v) == seq![
                    (m.role@, spec_text),
                ] + spec_gemini_turns(cv.skip(i + 1), None));
                assert(turn.view_pair() == (m.role@, spec_text));
                assert(turns_view(turns@.push(turn)) =~= turns_view(turns@).push(
                    turn.view_pair(),
                ));
                assert(turns_view(turns@) + (seq![turn.view_pair()] + spec_gemini_turns(
                    cv.skip(i + 1),
                    None,
                )) =~= turns_view(turns@.push(turn)) + spec_gemini_turns(cv.skip(i + 1), None));
            }
            turns.push(turn);
        }
        i += 1;
    }
    proof {
        assert(cv.skip(cv.len() as int) =~= Seq::<(Seq<char>, Seq<char>)>::empty());
        assert(spec_gemini_turns(Seq::<(Seq<char>, Seq<char>)>::empty(), pending_view(pending))
            == Seq::<(Seq<char>, Seq<u8>)>::empty());
        assert(turns_view(turns@) =~= spec_gemini_turns(cv, None));
    }
    turns
}

/// One turn of the content-generation payload.
pub open spec fn gemini_turn_json(role: Seq<u8>, text: Seq<u8>) -> Seq<u8> {
    ascii_seq("{\"role\":"@) + json_str(role) + ascii_seq(",\"parts\":[{\"text\":"@) + json_str(
        text,
    ) + ascii_seq("}]}"@)
}

/// The turns after the first, each preceded by a comma.
pub open spec fn gemini_tail_json(ts: Seq<(Seq<u8>, Seq<u8>)>) -> Seq<u8>
    decreases ts.len(),
{
    if ts.len() == 0 {
        Seq::empty()
    } else {
        ascii_seq(","@) + gemini_turn_json(ts[0].0, ts[0].1) + gemini_tail_json(ts.skip(1))
    }
}

/// A comma-separated list of content-generation turns.
pub open spec fn gemini_list_json(ts: Seq<(Seq<u8>, Seq<u8>)>) -> Seq<u8> {
    if ts.len() == 0 {
        Seq::empty()
    } else {
        gemini_turn_json(ts[0].0, ts[0].1) + gemini_tail_json(ts.skip(1))
    }
}

/// The whole content-generation payload.
pub open spec fn gemini_payload_json(model: Seq<u8>, ts: Seq<(Seq<u8>, Seq<u8>)>) -> Seq<u8> {
    ascii_seq("{\"model\":"@) + json_str(model) + ascii_seq(",\"contents\":["@) + gemini_list_json(
        ts,
    ) + ascii_seq("]}"@)
}

/// Turn pairs as their UTF-8 bytes.
pub open spec fn turns_bytes(ts: Seq<(Seq<char>, Seq<u8>)>) -> Seq<(Seq<u8>, Seq<u8>)> {
    ts.map(|_i: int, t: (Seq<char>, Seq<u8>)| (encode_utf8(t.0), t.1))
}

proof fn lemma_gemini_tail_snoc(ts: Seq<(Seq<u8>, Seq<u8>)>, t: (Seq<u8>, Seq<u8>))
    ensures
        gemini_tail_json(ts.push(t)) == gemini_tail_json(ts) + ascii_seq(","@) + gemini_turn_json(
            t.0,
            t.1,
        ),
    decreases ts.len(),
{
    if ts.len() == 0 {
        assert(ts.push(t).skip(1) =~= Seq::<(Seq<u8>, Seq<u8>)>::empty());
        assert(gemini_tail_json(Seq::<(Seq<u8>, Seq<u8>)>::empty()) == Seq::<u8>::empty());
        assert(gemini_tail_json(ts) == Seq::<u8>::empty());
        assert(gemini_tail_json(ts.push(t)) =~= gemini_tail_json(ts) + ascii_seq(","@)
            + gemini_turn_json(t.0, t.1));
    } else {
        assert(ts.push(t).skip(1) =~= ts.skip(1).push(t));
        lemma_gemini_tail_snoc(ts.skip(1), t);
        assert(gemini_tail_json(ts.push(t)) == ascii_seq(","@) + gemini_turn_json(
            ts[0].0,
            ts[0].1,
        ) + gemini_tail_json(ts.skip(1).push(t)));
        assert(gemini_tail_json(ts.push(t)) =~= gemini_tail_json(ts) + ascii_seq(","@)
            + gemini_turn_json(t.0, t.1));
    }
}

proof fn lemma_gemini_list_snoc(ts: Seq<(Seq<u8>, Seq<u8>)>, t: (Seq<u8>, Seq<u8>))
    ensures
        ts.len() == 0 ==> gemini_list_json(ts.push(t)) == gemini_turn_json(t.0, t.1),
        ts.len() > 0 ==> gemini_list_json(ts.push(t)) == gemini_list_json(ts) + ascii_seq(","@)
            + gemini_turn_json(t.0, t.1),
{
    if ts.len() == 0 {
        assert(ts.push(t).skip(1) =~= Seq::<(Seq<u8>, Seq<u8>)>::empty());
        assert(gemini_tail_json(Seq::<(Seq<u8>, Seq<u8>)>::empty()) == Seq::<u8>::empty());
        assert(gemini_list_json(ts.push(t)) =~= gemini_turn_json(t.0, t.1));
    } else {
        assert(ts.push(t).skip(1) =~= ts.skip(1).push(t));
        lemma_gemini_tail_snoc(ts.skip(1), t);
        assert(gemini_list_json(ts.push(t)) =~= gemini_list_json(ts) + ascii_seq(","@)
            + gemini_turn_json(t.0, t.1));
    }
}

/// Appends one content-generation turn object.
fn append_gemini_turn(out: &mut Vec<u8>, t: &GeminiTurn)
    ensures
        final(out)@ == old(out)@ + gemini_turn_json(encode_utf8(t.role@), t.text@),
{
    proof {
        reveal_strlit("{\"role\":");
        reveal_strlit(",\"parts\":[{\"text\":");
        reveal_strlit("}]}");
    }
    append_lit(out, "{\"role\":");
    let role_b = str_to_bytes(t.role.as_str());
    append_json_str(out, &role_b);
    append_lit(out, ",\"parts\":[{\"text\":");
    append_json_str(out, &t.text);
    append_lit(out, "}]}");
    proof {
        assert(out@ =~= old(out)@ + gemini_turn_json(encode_utf8(t.role@), t.text@));
    }
}

/// Builds the content-generation payload from already remapped turns. The
/// same payload shape serves both tiers; only the model name differs.
pub fn build_gemini_payload(model: &str, turns: &Vec<GeminiTurn>) -> (r: Vec<u8>)
    ensures
        r@ == gemini_payload_json(encode_utf8(model@), turns_bytes(turns_view(turns@))),
{
    let ghost tsb = turns_bytes(turns_view(turns@));
    proof {
        reveal_strlit("{\"model\":");
        reveal_strlit(",\"contents\":[");
        reveal_strlit("]}");
        reveal_strlit(",");
    }
    let mut out: Vec<u8> = Vec::new();
    append_lit(&mut out, "{\"model\":");
    let model_b = str_to_bytes(model);
    append_json_str(&mut out, &model_b);
    append_lit(&mut out, ",\"contents\":[");
    let ghost prefix = out@;
    let mut i: usize = 0;
    proof {
        assert(tsb.subrange(0, 0) =~= Seq::<(Seq<u8>, Seq<u8>)>::empty());
        assert(out@ =~= prefix + gemini_list_json(tsb.subrange(0, 0)));
    }
    while i < turns.len()
        invariant
            i <= turns@.len(),
            tsb == turns_bytes(turns_view(turns@)),
            tsb.len() == turns@.len(),
            out@ == prefix + gemini_list_json(tsb.subrange(0, i as int)),
        decreases turns@.len() - i,
    {
        let ghost tb = tsb[i as int];
        if i > 0 {
            proof {
                reveal_strlit(",");
            }
            append_lit(&mut out, ",");
        }
        append_gemini_turn(&mut out, &turns[i]);
        proof {
            assert(tb == (encode_utf8(turns@[i as int].role@), turns@[i as int].text@));
            lemma_gemini_list_snoc(tsb.subrange(0, i as int), tb);
            assert(tsb.subrange(0, i as int).push(tb) =~= tsb.subrange(0, i + 1));
            assert(out@ =~= prefix + gemini_list_json(tsb.subrange(0, i + 1)));
        }
        i += 1;
    }
    append_lit(&mut out, "]}");
    proof {
        assert(tsb.subrange(0, tsb.len() as int) =~= tsb);
        assert(out@ =~= gemini_payload_json(encode_utf8(model@), tsb));
    }
    out
}

} // verus!
