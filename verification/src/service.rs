//! Per-request orchestration: everything the gateway decides before the
//! upstream call is issued.
//!
//! One request proceeds as: truncate the conversation, resolve the target
//! (the tiered provider's endpoint and model depend on the rate gate's
//! verdict, handed in as a plain value), and build the provider-specific
//! payload. The result is a complete plan for the caller that owns the HTTP
//! client: where to send, what to send, and which bearer credential to
//! attach — none for the tiered provider, whose requests carry no
//! authorization header.

use vstd::prelude::*;
use vstd::utf8::encode_utf8;
use crate::models::Message;
use crate::request::{
    build_chat_payload, build_gemini_contents, build_gemini_payload, chat_payload_json,
    gemini_payload_json, msgs_bytes, spec_gemini_turns, turns_bytes,
};
use crate::supplier::ApiSupplier;
use crate::truncate::{conv_view, truncate, truncated_view};

verus! {

/// Everything needed to issue one upstream request.
pub struct RequestPlan {
    pub url: String,
    pub payload: Vec<u8>,
    pub bearer_key: Option<String>,
}

/// The payload the plan must carry for a target, a gate verdict and a
/// conversation: the content-generation shape with remapped roles for the
/// tiered provider, the chat-completions shape for the others, both over
/// the truncated conversation and the resolved model.
pub open spec fn spec_plan_payload(
    s: ApiSupplier,
    pro_allowed: bool,
    ms: Seq<(Seq<char>, Seq<char>)>,
) -> Seq<u8> {
    if s.is_gemini() {
        gemini_payload_json(
            encode_utf8(s.spec_model(pro_allowed)),
            turns_bytes(spec_gemini_turns(truncated_view(ms), None)),
        )
    } else {
        chat_payload_json(encode_utf8(s.spec_model(pro_allowed)), msgs_bytes(truncated_view(ms)))
    }
}

/// Builds the whole upstream request for one call: endpoint and model as
/// resolution gives them for the rate gate's verdict, the payload in the
/// target's wire shape over the truncated conversation, and the bearer
/// credential exactly for the non-tiered providers.
pub fn build_request_plan(supplier: &ApiSupplier, messages: &Vec<Message>, pro_allowed: bool) -> (r:
    RequestPlan)
    ensures
        r.url@ == supplier.spec_url(pro_allowed),
        r.payload@ == spec_plan_payload(*supplier, pro_allowed, conv_view(messages@)),
        supplier.is_gemini() ==> r.bearer_key is None,
        !supplier.is_gemini() ==> match r.bearer_key {
            Some(k) => k@ == supplier.spec_api_key(),
            None => false,
        },
{
    let kept = truncate(messages);
    let url = supplier.get_url(pro_allowed);
    let model = supplier.get_model(pro_allowed);
    if supplier.needs_rate_check() {
        let turns = build_gemini_contents(&kept);
        let payload = build_gemini_payload(model.as_str(), &turns);
        RequestPlan { url, payload, bearer_key: None }
    } else {
        let payload = build_chat_payload(model.as_str(), &kept);
        RequestPlan { url, payload, bearer_key: Some(supplier.get_api_key()) }
    }
}

} // verus!
