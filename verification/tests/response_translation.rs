use llm_gateway::response::{parse_and_transform_chunk, transform_chunk, translate_chunk, translate_stream};

fn tf(chunk: &str) -> String {
    String::from_utf8(transform_chunk(&chunk.as_bytes().to_vec())).unwrap()
}

const DONE: &str = "data: [DONE]";

#[test]
fn synthetic_chunk_is_reshaped() {
    let out = tf("{\"candidates\":[{\"content\":{\"parts\":[{\"text\":\"hi\"}]}}]}");
    assert_eq!(out, "data: {\"choices\":[{\"index\":0,\"delta\":{\"content\":\"hi\"}}]}\n\n");
}

#[test]
fn data_prefix_is_stripped_before_parsing() {
    let out = tf("data: {\"candidates\":[{\"content\":{\"parts\":[{\"text\":\"hi\"}]}}]}\n");
    assert_eq!(out, "data: {\"choices\":[{\"index\":0,\"delta\":{\"content\":\"hi\"}}]}\n\n");
}

#[test]
fn blank_chunk_becomes_the_termination_marker() {
    assert_eq!(tf(""), DONE);
    assert_eq!(tf("   \n\t "), DONE);
    assert_eq!(tf("data: "), DONE);
    assert_eq!(tf("data: data: \n"), DONE);
}

#[test]
fn malformed_chunk_becomes_the_termination_marker() {
    assert_eq!(tf("{oops"), DONE);
    assert_eq!(tf("not json at all"), DONE);
    assert_eq!(tf("[1,2,3]"), DONE);
    assert_eq!(tf("{\"candidates\":\"no\"}"), DONE);
    assert_eq!(tf("{\"other\":1}"), DONE);
}

#[test]
fn missing_candidates_or_parts_become_the_termination_marker() {
    assert_eq!(tf("{\"candidates\":[]}"), DONE);
    assert_eq!(tf("{\"candidates\":[{\"content\":{\"parts\":[]}}]}"), DONE);
    assert_eq!(tf("{\"candidates\":[{\"content\":{}}]}"), DONE);
    assert_eq!(tf("{\"candidates\":[{}]}"), DONE);
}

#[test]
fn extra_fields_are_skipped() {
    let chunk = "{\"candidates\": [ {\"content\": {\"parts\": [ {\"text\": \"ok\"} ], \"role\": \"model\"}, \"finishReason\": \"STOP\", \"index\": 0, \"safetyRatings\": [ {\"category\": \"x\", \"blocked\": false} ] } ], \"usageMetadata\": {\"promptTokenCount\": 7}, \"modelVersion\": \"v\"}";
    let out = tf(chunk);
    assert_eq!(out, "data: {\"choices\":[{\"index\":0,\"delta\":{\"content\":\"ok\"}}]}\n\n");
}

#[test]
fn text_escapes_survive_the_round_trip() {
    let out = tf("{\"candidates\":[{\"content\":{\"parts\":[{\"text\":\"a\\nb\\\"c\\\\d\"}]}}]}");
    assert_eq!(out, "data: {\"choices\":[{\"index\":0,\"delta\":{\"content\":\"a\\nb\\\"c\\\\d\"}}]}\n\n");
}

#[test]
fn unicode_escapes_are_decoded() {
    let out = tf("{\"candidates\":[{\"content\":{\"parts\":[{\"text\":\"\\u0041\\u00e9\"}]}}]}");
    assert_eq!(out, "data: {\"choices\":[{\"index\":0,\"delta\":{\"content\":\"A\u{e9}\"}}]}\n\n");
    let pair = tf("{\"candidates\":[{\"content\":{\"parts\":[{\"text\":\"\\ud83d\\ude00\"}]}}]}");
    assert_eq!(pair, "data: {\"choices\":[{\"index\":0,\"delta\":{\"content\":\"\u{1f600}\"}}]}\n\n");
}

#[test]
fn lone_surrogate_or_bad_escape_is_rejected() {
    assert_eq!(tf("{\"candidates\":[{\"content\":{\"parts\":[{\"text\":\"\\ud83d\"}]}}]}"), DONE);
    assert_eq!(tf("{\"candidates\":[{\"content\":{\"parts\":[{\"text\":\"\\q\"}]}}]}"), DONE);
}

#[test]
fn trailing_garbage_after_the_document_is_rejected() {
    assert_eq!(
        tf("{\"candidates\":[{\"content\":{\"parts\":[{\"text\":\"hi\"}]}}]}{\"x\":1}"),
        DONE
    );
}

#[test]
fn parse_and_transform_reports_shapeless_chunks() {
    assert!(parse_and_transform_chunk(&b"".to_vec()).is_none());
    assert!(parse_and_transform_chunk(&b"{bad".to_vec()).is_none());
    let good = parse_and_transform_chunk(
        &b"{\"candidates\":[{\"content\":{\"parts\":[{\"text\":\"hi\"}]}}]}".to_vec(),
    );
    assert_eq!(
        String::from_utf8(good.unwrap()).unwrap(),
        "data: {\"choices\":[{\"index\":0,\"delta\":{\"content\":\"hi\"}}]}\n\n"
    );
}

#[test]
fn first_candidate_and_first_part_win() {
    let chunk = "{\"candidates\":[{\"content\":{\"parts\":[{\"text\":\"first\"},{\"text\":\"second\"}]}},{\"content\":{\"parts\":[{\"text\":\"other\"}]}}]}";
    let out = tf(chunk);
    assert_eq!(out, "data: {\"choices\":[{\"index\":0,\"delta\":{\"content\":\"first\"}}]}\n\n");
}

#[test]
fn skipped_fields_may_hold_any_json_value() {
    let chunk = "{\"a\":null,\"b\":true,\"c\":-1,\"d\":0.5,\"e\":[[1,2],{\"f\":\"]}\"}],\"candidates\":[{\"g\":false,\"content\":{\"parts\":[{\"text\":\"deep\"}]}}]}";
    let out = tf(chunk);
    assert_eq!(out, "data: {\"choices\":[{\"index\":0,\"delta\":{\"content\":\"deep\"}}]}\n\n");
}

#[test]
fn coalesced_events_in_one_chunk_become_the_marker() {
    // two events arriving in one network read parse as no single document
    let chunk = "data: {\"candidates\":[{\"content\":{\"parts\":[{\"text\":\"hi\"}]}}]}\n\ndata: [DONE]";
    assert_eq!(tf(chunk), DONE);
}

#[test]
fn tiered_stream_ends_with_exactly_one_marker() {
    let chunks = vec![
        b"{\"candidates\":[{\"content\":{\"parts\":[{\"text\":\"a\"}]}}]}".to_vec(),
        b"garbage".to_vec(),
        b"{\"candidates\":[{\"content\":{\"parts\":[{\"text\":\"b\"}]}}]}".to_vec(),
    ];
    let out = translate_stream(true, &chunks);
    assert_eq!(out.len(), 4);
    assert_eq!(
        String::from_utf8(out[0].clone()).unwrap(),
        "data: {\"choices\":[{\"index\":0,\"delta\":{\"content\":\"a\"}}]}\n\n"
    );
    assert_eq!(String::from_utf8(out[1].clone()).unwrap(), DONE);
    assert_eq!(
        String::from_utf8(out[2].clone()).unwrap(),
        "data: {\"choices\":[{\"index\":0,\"delta\":{\"content\":\"b\"}}]}\n\n"
    );
    assert_eq!(String::from_utf8(out[3].clone()).unwrap(), DONE);
}

#[test]
fn empty_tiered_stream_still_ends_with_the_marker() {
    let out = translate_stream(true, &Vec::new());
    assert_eq!(out.len(), 1);
    assert_eq!(String::from_utf8(out[0].clone()).unwrap(), DONE);
}

#[test]
fn non_tiered_stream_passes_through_unchanged() {
    let chunks = vec![
        b"data: {\"choices\":[{\"index\":0,\"delta\":{\"content\":\"as-is\"}}]}\n\n".to_vec(),
        b"data: [DONE]\n\n".to_vec(),
    ];
    let out = translate_stream(false, &chunks);
    assert_eq!(out, chunks);
    let one = translate_chunk(false, &b"\x00raw bytes pass through\xff".to_vec());
    assert_eq!(one, b"\x00raw bytes pass through\xff".to_vec());
}
