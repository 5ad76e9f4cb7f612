use llm_gateway::models::Message;
use llm_gateway::request::{build_chat_payload, build_gemini_contents, build_gemini_payload};
use llm_gateway::service::build_request_plan;
use llm_gateway::supplier::ApiSupplier;

fn msg(role: &str, content: &str) -> Message {
    Message::new(role.to_string(), content.to_string())
}

#[test]
fn system_text_merges_into_next_non_assistant_message_once() {
    let ms = vec![msg("system", "X"), msg("user", "Y"), msg("assistant", "Z")];
    let turns = build_gemini_contents(&ms);
    assert_eq!(turns.len(), 2);
    assert_eq!(turns[0].role, "user");
    assert_eq!(turns[0].text, b"X Y".to_vec());
    assert_eq!(turns[1].role, "model");
    assert_eq!(turns[1].text, b"Z".to_vec());
}

#[test]
fn system_text_passes_over_assistant_messages() {
    let ms = vec![msg("system", "S"), msg("assistant", "A"), msg("user", "U"), msg("user", "V")];
    let turns = build_gemini_contents(&ms);
    assert_eq!(turns.len(), 3);
    assert_eq!(turns[0].role, "model");
    assert_eq!(turns[0].text, b"A".to_vec());
    assert_eq!(turns[1].role, "user");
    assert_eq!(turns[1].text, b"S U".to_vec());
    // consumed exactly once: the next user message gets no prefix
    assert_eq!(turns[2].text, b"V".to_vec());
}

#[test]
fn brand_phrase_is_replaced_in_system_text() {
    let ms = vec![msg("system", "You are GitHub Copilot, be kind"), msg("user", "hi")];
    let turns = build_gemini_contents(&ms);
    assert_eq!(turns.len(), 1);
    assert_eq!(turns[0].role, "user");
    assert_eq!(turns[0].text, b"You are Gemini, be kind hi".to_vec());
}

#[test]
fn other_roles_keep_their_label() {
    let ms = vec![msg("tool", "t")];
    let turns = build_gemini_contents(&ms);
    assert_eq!(turns.len(), 1);
    assert_eq!(turns[0].role, "tool");
    assert_eq!(turns[0].text, b"t".to_vec());
}

#[test]
fn chat_payload_exact_json() {
    let ms = vec![msg("user", "hi"), msg("assistant", "yo")];
    let p = build_chat_payload("gpt-4o-turbo", &ms);
    let expected = "{\"model\":\"gpt-4o-turbo\",\"stream\":true,\"messages\":[{\"role\":\"user\",\"content\":\"hi\"},{\"role\":\"assistant\",\"content\":\"yo\"}]}";
    assert_eq!(String::from_utf8(p).unwrap(), expected);
}

#[test]
fn chat_payload_escapes_content() {
    let ms = vec![msg("user", "a\"b\\c\nd\u{1f}e")];
    let p = build_chat_payload("m", &ms);
    let expected = "{\"model\":\"m\",\"stream\":true,\"messages\":[{\"role\":\"user\",\"content\":\"a\\\"b\\\\c\\nd\\u001fe\"}]}";
    assert_eq!(String::from_utf8(p).unwrap(), expected);
}

#[test]
fn gemini_payload_exact_json() {
    let ms = vec![msg("system", "X"), msg("user", "Y"), msg("assistant", "Z")];
    let turns = build_gemini_contents(&ms);
    let p = build_gemini_payload("gemini-pro", &turns);
    let expected = "{\"model\":\"gemini-pro\",\"contents\":[{\"role\":\"user\",\"parts\":[{\"text\":\"X Y\"}]},{\"role\":\"model\",\"parts\":[{\"text\":\"Z\"}]}]}";
    assert_eq!(String::from_utf8(p).unwrap(), expected);
}

#[test]
fn payloads_are_truncated_before_translation() {
    let mut ms = Vec::new();
    for i in 0..8 {
        ms.push(msg("user", &format!("m{}", i)));
    }
    let s = ApiSupplier::OpenAi {
        url: "https://api.example.test/v1/chat".to_string(),
        model: "gpt-4o-turbo".to_string(),
        api_key: "k".to_string(),
    };
    let plan = build_request_plan(&s, &ms, false);
    let body = String::from_utf8(plan.payload).unwrap();
    assert!(body.contains("m0"));
    assert!(!body.contains("m1\""));
    assert!(!body.contains("m4\""));
    assert!(body.contains("m5"));
    assert!(body.contains("m6"));
    assert!(body.contains("m7"));
}

#[test]
fn non_tiered_plan_carries_bearer_credential() {
    let s = ApiSupplier::Claude {
        url: "https://cc-upstream.example.test/v1".to_string(),
        model: "cc-model".to_string(),
        api_key: "SECRET-REDACTED".to_string(),
    };
    let ms = vec![msg("user", "hi")];
    let plan = build_request_plan(&s, &ms, false);
    assert_eq!(plan.url, "https://cc-upstream.example.test/v1");
    assert_eq!(plan.bearer_key.as_deref(), Some("SECRET-REDACTED"));
    assert!(String::from_utf8(plan.payload).unwrap().contains("\"stream\":true"));
}

#[test]
fn tiered_plan_has_no_bearer_and_follows_the_verdict() {
    let s = ApiSupplier::Gemini {
        url: "https://std.example.test".to_string(),
        model: "standard-model".to_string(),
        api_key: "unused".to_string(),
        pro_url: "https://pro.example.test".to_string(),
        pro_model: "pro-model".to_string(),
        rate_limit_per_minute: 3,
    };
    let ms = vec![msg("user", "hi")];

    let allowed = build_request_plan(&s, &ms, true);
    assert_eq!(allowed.url, "https://pro.example.test");
    assert!(allowed.bearer_key.is_none());
    assert!(String::from_utf8(allowed.payload).unwrap().contains("\"model\":\"pro-model\""));

    let denied = build_request_plan(&s, &ms, false);
    assert_eq!(denied.url, "https://std.example.test");
    assert!(denied.bearer_key.is_none());
    let body = String::from_utf8(denied.payload).unwrap();
    assert!(body.contains("\"model\":\"standard-model\""));
    // payload shape does not depend on the tier, only endpoint and model do
    assert!(body.contains("\"contents\":[{\"role\":\"user\",\"parts\":[{\"text\":\"hi\"}]}]"));
}

#[test]
fn non_tiered_resolution_is_stable_across_calls() {
    let s = ApiSupplier::OpenAi {
        url: "https://api.example.test".to_string(),
        model: "gpt-4o-turbo".to_string(),
        api_key: "k1".to_string(),
    };
    let u1 = s.get_url(true);
    let u2 = s.get_url(false);
    assert_eq!(u1, u2);
    assert_eq!(s.get_model(true), s.get_model(false));
    assert_eq!(s.get_api_key(), s.get_api_key());
}

#[test]
fn tiered_resolution_pairs_model_with_endpoint() {
    let s = ApiSupplier::Gemini {
        url: "https://std.example.test".to_string(),
        model: "standard-model".to_string(),
        api_key: "".to_string(),
        pro_url: "https://pro.example.test".to_string(),
        pro_model: "pro-model".to_string(),
        rate_limit_per_minute: 5,
    };
    let (m, u) = s.get_gemini_model_url(true);
    assert_eq!(m, "pro-model");
    assert_eq!(u, "https://pro.example.test");
    let (m2, u2) = s.get_gemini_model_url(false);
    assert_eq!(m2, "standard-model");
    assert_eq!(u2, "https://std.example.test");
    assert_eq!(s.rate_budget(), 5);
    assert!(s.needs_rate_check());
}
