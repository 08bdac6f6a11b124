use ruskgpt::stream::{
    extract_delta, fragments_of_chunk, fragments_of_payload, fragments_of_stream, frame_payload,
    is_forwarded, reassemble,
};

fn chunk(text: &str) -> Vec<u8> {
    text.as_bytes().to_vec()
}

#[test]
fn frame_keeps_data_lines_trimmed_and_joined() {
    let bytes = chunk("event: x\ndata:  {\"a\":1} \n: comment\ndata:{\"b\":2}\n\n");
    assert_eq!(frame_payload(&bytes), "{\"a\":1}\n{\"b\":2}");
}

#[test]
fn frame_of_invalid_utf8_is_empty() {
    let bytes = vec![b'd', b'a', b't', b'a', b':', 0xff, 0xfe];
    assert_eq!(frame_payload(&bytes), "");
    assert!(fragments_of_chunk(&bytes).is_empty());
}

#[test]
fn frame_trims_unicode_whitespace() {
    let bytes = chunk("data:\u{3000}{\"x\":0}\u{a0}");
    assert_eq!(frame_payload(&bytes), "{\"x\":0}");
}

#[test]
fn frame_without_data_lines_is_empty() {
    assert_eq!(frame_payload(&chunk("event: ping\n")), "");
}

#[test]
fn done_and_blank_payloads_are_dropped() {
    assert!(!is_forwarded("[DONE]"));
    assert!(!is_forwarded("  \n "));
    assert!(is_forwarded("{}"));
    assert!(fragments_of_payload("[DONE]").is_empty());
    assert!(fragments_of_payload("").is_empty());
    assert!(fragments_of_chunk(&chunk("data: [DONE]\n")).is_empty());
}

#[test]
fn reassembly_keeps_a_whole_object() {
    let obj = "{\"choices\":[{\"delta\":{\"content\":\"Hi\"}}]}";
    assert_eq!(reassemble(obj), vec![obj.to_string()]);
}

#[test]
fn reassembly_recovers_a_split_object() {
    let payload = format!("{}{}{}", "{\"a\":1", "}\n{", "}");
    let objects = reassemble(&payload);
    assert_eq!(objects[0], "{\"a\":1}");
    assert_eq!(objects, vec!["{\"a\":1}".to_string(), "{}".to_string()]);
}

#[test]
fn reassembly_repairs_each_edge() {
    assert_eq!(reassemble("{\"a\":1"), vec!["{\"a\":1}".to_string()]);
    assert_eq!(reassemble("\"a\":1}"), vec!["{\"a\":1}".to_string()]);
    assert_eq!(reassemble("\"a\":1"), vec!["{\"a\":1}".to_string()]);
    assert_eq!(reassemble(""), vec!["{}".to_string()]);
}

#[test]
fn reassembly_splits_adjacent_objects() {
    assert_eq!(
        reassemble("{\"a\":1}\n{\"b\":2}\n{\"c\":3}"),
        vec!["{\"a\":1}".to_string(), "{\"b\":2}".to_string(), "{\"c\":3}".to_string()]
    );
}

#[test]
fn delta_is_read_from_choices() {
    assert_eq!(extract_delta("{\"choices\":[{\"delta\":{\"content\":\"Hi\"}}]}"), "Hi");
    assert_eq!(extract_delta("{\"choices\":[{\"delta\":{\"role\":\"assistant\"}}]}"), "");
    assert_eq!(extract_delta("{\"choices\":[{\"delta\":{\"content\":7}}]}"), "");
    assert_eq!(extract_delta("{\"choices\":[{\"delta\":{\"content\":\"a\"}"), "");
    assert_eq!(extract_delta("not json"), "");
    assert_eq!(extract_delta("{\"choices\":{\"0\":{\"delta\":{\"content\":\"Hi\"}}}}"), "");
}

#[test]
fn single_hi_then_done() {
    let chunks = vec![
        chunk("data: {\"choices\":[{\"delta\":{\"content\":\"Hi\"}}]}"),
        chunk("data: [DONE]"),
    ];
    assert_eq!(fragments_of_stream(&chunks), vec!["Hi".to_string()]);
}

#[test]
fn stream_concatenates_chunk_deltas_in_order() {
    let chunks = vec![
        chunk("data: {\"choices\":[{\"delta\":{\"content\":\"Hel\"}}]}"),
        chunk("data: {\"choices\":[{\"delta\":{\"role\":\"assistant\"}}]}"),
        chunk("data: {\"choices\":[{\"delta\":{\"content\":\"lo\"}}]}"),
    ];
    assert_eq!(fragments_of_stream(&chunks), vec!["Hel".to_string(), "lo".to_string()]);
}

#[test]
fn malformed_chunk_is_skipped() {
    let chunks = vec![
        chunk("data: {\"choices\":[{\"delta\":{\"content\":\"A\"}}]}"),
        chunk("data: {\"choices\":[{,,}]"),
        chunk("data: {\"choices\":[{\"delta\":{\"content\":\"B\"}}]}"),
    ];
    assert!(fragments_of_chunk(&chunks[1]).is_empty());
    assert_eq!(fragments_of_stream(&chunks), vec!["A".to_string(), "B".to_string()]);
}

#[test]
fn two_events_in_one_chunk() {
    let bytes = chunk(
        "data: {\"choices\":[{\"delta\":{\"content\":\"x\"}}]}\n\ndata: {\"choices\":[{\"delta\":{\"content\":\"y\"}}]}\n\n",
    );
    assert_eq!(fragments_of_chunk(&bytes), vec!["x".to_string(), "y".to_string()]);
}

#[test]
fn lines_ended_by_breaks() {
    let chunks = vec![
        chunk("data: {\"choices\":[{\"delta\":{\"content\":\"a\"}}]}\n\n"),
        chunk("data: {\"choices\":[{\"delta\":{\"content\":\"b\"}}]}\n"),
        chunk("data: [DONE]\n\n"),
    ];
    assert_eq!(fragments_of_stream(&chunks), vec!["a".to_string(), "b".to_string()]);
}

#[test]
fn empty_stream_gives_nothing() {
    assert!(fragments_of_stream(&Vec::new()).is_empty());
}
