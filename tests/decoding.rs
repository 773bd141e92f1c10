use life_viewer::command::{decode, parse_command, Frame};

fn payload(trigger: &str) -> String {
    format!(
        "{{\"HEADERS\":{{\"HX-Request\":\"true\",\"HX-Trigger\":\"btn\",\"HX-Trigger-Name\":\"{}\",\"HX-Target\":\"container\",\"HX-Current-URL\":\"http://127.0.0.1:8080/\"}}}}",
        trigger
    )
}

#[test]
fn decode_speed_minus() {
    let r = decode(&payload("speed:-"));
    assert_eq!(r, Some(("speed".to_string(), Some(vec!["-".to_string()]))));
}

#[test]
fn decode_pause() {
    assert_eq!(decode(&payload("pause")), Some(("pause".to_string(), None)));
}

#[test]
fn decode_two_segments_is_none() {
    assert_eq!(decode("{\"HEADERS\":\"HX-Trigger-Name\":\"pause\"}"), None);
    assert_eq!(decode("no braces at all"), None);
}

#[test]
fn decode_several_arguments() {
    // Header entries are split on `,` first, so only the first argument
    // survives inside the header.
    assert_eq!(
        decode(&payload("speed:a,b,,c")),
        Some(("speed".to_string(), Some(vec!["a".to_string()])))
    );
    assert_eq!(decode(&payload("speed:")), Some(("speed".to_string(), Some(vec![String::new()]))));
}

#[test]
fn decode_last_entry_keeps_closing_braces() {
    assert_eq!(
        decode("{\"HEADERS\":{\"HX-Trigger-Name\":\"pause\"}}"),
        Some(("pause\"}}".to_string(), None))
    );
}

#[test]
fn decode_empty_value_is_skipped() {
    let text = "{x{\"HX-Trigger-Name\":\"\",\"HX-Trigger-Name\":\"reset\"";
    assert_eq!(decode(text), Some(("reset".to_string(), None)));
    assert_eq!(decode("{x{\"HX-Trigger-Name\":\"\""), None);
}

#[test]
fn decode_key_is_case_sensitive() {
    assert_eq!(decode("{x{\"hx-trigger-name\":\"pause\"}"), None);
}

#[test]
fn decode_entries_without_colon_are_skipped() {
    assert_eq!(decode("{x{junk,\"HX-Trigger-Name\":\"play\""), Some(("play".to_string(), None)));
}

#[test]
fn decode_reads_only_third_segment() {
    assert_eq!(decode("{x{\"a\":\"b\"}{\"HX-Trigger-Name\":\"play\"}"), None);
}

#[test]
fn decode_unquoted_entries() {
    assert_eq!(decode("a{b{HX-Trigger-Name:reset"), Some(("reset".to_string(), None)));
}

#[test]
fn parse_text_frame() {
    let r = parse_command(Frame::Text(payload("speed:x")));
    assert_eq!(r, Some(("speed".to_string(), Some(vec!["x".to_string()]))));
}

#[test]
fn parse_other_frame_is_none() {
    assert_eq!(parse_command(Frame::Other), None);
}
