use llm_gateway::models::Message;
use llm_gateway::rate::{
    expire_at, gate_verdict, rate_decision, rate_key, rate_plan, rate_plan_now, should_set_expiry,
    RateCounter, MAX_LABEL_TS,
};
use llm_gateway::truncate::truncate;

fn msg(role: &str, content: &str) -> Message {
    Message::new(role.to_string(), content.to_string())
}

fn conv(n: usize) -> Vec<Message> {
    let mut v = Vec::new();
    for i in 0..n {
        v.push(msg(if i == 0 { "system" } else { "user" }, &format!("m{}", i)));
    }
    v
}

#[test]
fn truncate_short_conversation_unchanged() {
    for n in 0..7 {
        let c = conv(n);
        let t = truncate(&c);
        assert_eq!(t.len(), n);
        for i in 0..n {
            assert_eq!(t[i].role, c[i].role);
            assert_eq!(t[i].content, c[i].content);
        }
    }
}

#[test]
fn truncate_long_conversation_keeps_first_and_last_three() {
    let c = conv(9);
    let t = truncate(&c);
    assert_eq!(t.len(), 4);
    assert_eq!(t[0].content, "m0");
    assert_eq!(t[0].role, "system");
    assert_eq!(t[1].content, "m6");
    assert_eq!(t[2].content, "m7");
    assert_eq!(t[3].content, "m8");
}

#[test]
fn truncate_keeps_first_message_whatever_its_role() {
    let mut c = conv(8);
    c[0] = msg("user", "not a system message");
    let t = truncate(&c);
    assert_eq!(t.len(), 4);
    assert_eq!(t[0].role, "user");
    assert_eq!(t[0].content, "not a system message");
}

#[test]
fn truncate_boundary_seven_messages() {
    let c = conv(7);
    let t = truncate(&c);
    assert_eq!(t.len(), 4);
    assert_eq!(t[0].content, "m0");
    assert_eq!(t[1].content, "m4");
    assert_eq!(t[3].content, "m6");
}

#[test]
fn rate_gate_budget_exhausts_within_window() {
    let mut c = RateCounter::new();
    // a timestamp at the start of its minute window
    let ts: i64 = 1_699_999_980;
    let budget: u16 = 3;
    assert!(c.allow(ts, budget));
    assert!(c.allow(ts + 10, budget));
    assert!(c.allow(ts + 20, budget));
    assert!(!c.allow(ts + 30, budget));
    assert!(!c.allow(ts + 40, budget));
}

#[test]
fn rate_gate_next_window_resets_to_one() {
    let mut c = RateCounter::new();
    // 1_700_000_040 / 60 and (1_700_000_040 + 60) / 60 are different windows
    let ts: i64 = 1_700_000_040;
    let budget: u16 = 2;
    assert!(c.allow(ts, budget));
    assert!(c.allow(ts + 1, budget));
    assert!(!c.allow(ts + 2, budget));
    assert!(c.allow(ts + 60, budget));
    assert_eq!(c.count, 1);
}

#[test]
fn rate_decision_counts_the_call_itself() {
    assert!(rate_decision(1, 1));
    assert!(!rate_decision(2, 1));
    assert!(rate_decision(3, 3));
    assert!(!rate_decision(4, 3));
    assert!(!rate_decision(1, 0));
}

#[test]
fn expiry_is_set_on_first_increment_only() {
    assert!(should_set_expiry(1));
    assert!(!should_set_expiry(2));
    assert!(!should_set_expiry(0));
}

#[test]
fn rate_key_labels_the_minute_window() {
    assert_eq!(rate_key(0), "rate_limit_1970-01-01T00:00");
    assert_eq!(rate_key(59), "rate_limit_1970-01-01T00:00");
    assert_eq!(rate_key(60), "rate_limit_1970-01-01T00:01");
    // 1431648000 is 2015-05-15 00:00:00 UTC
    assert_eq!(rate_key(1_431_648_000), "rate_limit_2015-05-15T00:00");
    assert_eq!(rate_key(1_431_648_059), "rate_limit_2015-05-15T00:00");
}

#[test]
fn expire_at_is_one_minute_later() {
    assert_eq!(expire_at(0), 60);
    assert_eq!(expire_at(123), 183);
}

#[test]
fn missing_store_reply_denies_the_call() {
    assert!(!gate_verdict(None, 5));
    assert!(gate_verdict(Some(5), 5));
    assert!(!gate_verdict(Some(6), 5));
    assert!(!gate_verdict(Some(1), 0));
}

#[test]
fn rate_plan_exists_exactly_on_labelled_timestamps() {
    let (ts, key, exp) = rate_plan(90).unwrap();
    assert_eq!(ts, 90);
    assert_eq!(key, "rate_limit_1970-01-01T00:01");
    assert_eq!(exp, 150);
    assert!(rate_plan(0).is_some());
    assert!(rate_plan(MAX_LABEL_TS).is_some());
    assert!(rate_plan(-1).is_none());
    assert!(rate_plan(MAX_LABEL_TS + 1).is_none());
}

#[test]
fn rate_plan_now_gives_key_and_expiry() {
    let plan = rate_plan_now();
    let (ts, key, exp) = plan.expect("the clock reads within range");
    assert!(key.starts_with("rate_limit_"));
    assert_eq!(key, rate_key(ts));
    assert_eq!(exp, ts + 60);
}
