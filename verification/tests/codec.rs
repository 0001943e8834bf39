use agent_toast::codec::{
    decode_request, encode_frame, encode_request, frame_payload_len, try_encode_request,
};
use agent_toast::request::NotifyRequest;

fn req(
    pid: u32,
    event: &str,
    message: Option<&str>,
    title_hint: Option<&str>,
    process_tree: Option<Vec<u32>>,
    source: &str,
) -> NotifyRequest {
    NotifyRequest {
        pid,
        event: event.to_string(),
        message: message.map(|s| s.to_string()),
        title_hint: title_hint.map(|s| s.to_string()),
        process_tree,
        source: source.to_string(),
    }
}

fn string_body(s: &str) -> Vec<u8> {
    let mut out = Vec::new();
    for c in s.chars() {
        out.extend_from_slice(&(c as u32).to_le_bytes());
    }
    out
}

fn field(tag: u8, body: &[u8]) -> Vec<u8> {
    let mut out = vec![tag];
    out.extend_from_slice(&(body.len() as u32).to_le_bytes());
    out.extend_from_slice(body);
    out
}

#[test]
fn roundtrip_all_fields() {
    let r = req(
        99999,
        "user_input_required",
        Some("권한 승인이 필요합니다"),
        Some("my-awesome-project"),
        Some(vec![1000, 2000, 3000, 4000, 5000]),
        "agent",
    );
    let bytes = encode_request(&r);
    let back = decode_request(&bytes).unwrap();
    assert_eq!(back.pid, 99999);
    assert_eq!(back.event, "user_input_required");
    assert_eq!(back.message.as_deref(), Some("권한 승인이 필요합니다"));
    assert_eq!(back.title_hint.as_deref(), Some("my-awesome-project"));
    assert_eq!(back.process_tree, Some(vec![1000, 2000, 3000, 4000, 5000]));
    assert_eq!(back.source, "agent");
}

#[test]
fn roundtrip_minimal_request() {
    let r = req(1, "error", None, None, None, "agent");
    let bytes = encode_request(&r);
    let back = decode_request(&bytes).unwrap();
    assert_eq!(back.pid, 1);
    assert_eq!(back.event, "error");
    assert!(back.message.is_none());
    assert!(back.title_hint.is_none());
    assert!(back.process_tree.is_none());
}

#[test]
fn roundtrip_empty_message_string() {
    let r = req(1, "test", Some(""), None, None, "agent");
    let bytes = encode_request(&r);
    let back = decode_request(&bytes).unwrap();
    assert_eq!(back.message.as_deref(), Some(""));
}

#[test]
fn roundtrip_unicode_message() {
    let msg = "한글 메시지 🎉 テスト";
    let r = req(1, "task_complete", Some(msg), None, None, "agent");
    let bytes = encode_request(&r);
    let back = decode_request(&bytes).unwrap();
    assert_eq!(back.message.as_deref(), Some(msg));
}

#[test]
fn roundtrip_ten_thousand_entry_tree() {
    let tree: Vec<u32> = (0..10000).collect();
    let r = req(1, "test", None, None, Some(tree.clone()), "agent");
    let bytes = encode_request(&r);
    let back = decode_request(&bytes).unwrap();
    assert_eq!(back.process_tree, Some(tree));
}

#[test]
fn roundtrip_all_sources() {
    for source in ["agent", "codex", "updater"] {
        let r = req(1, "test", None, None, None, source);
        let bytes = encode_request(&r);
        let back = decode_request(&bytes).unwrap();
        assert_eq!(back.source, source);
    }
}

#[test]
fn roundtrip_empty_process_tree() {
    let r = req(1, "test", None, None, Some(vec![]), "agent");
    let bytes = encode_request(&r);
    let back = decode_request(&bytes).unwrap();
    assert_eq!(back.process_tree, Some(vec![]));
}

#[test]
fn roundtrip_special_characters_in_message() {
    let special = r#"Line1\nLine2\tTab "quoted" 'single' <tag> & symbol"#;
    let r = req(1, "test", Some(special), None, None, "agent");
    let bytes = encode_request(&r);
    let back = decode_request(&bytes).unwrap();
    assert_eq!(back.message.as_deref(), Some(special));
}

#[test]
fn try_encode_accepts_ordinary_requests() {
    let r = req(7, "task_complete", Some("done"), None, Some(vec![1, 2]), "agent");
    let encoded = try_encode_request(&r).unwrap();
    assert_eq!(encoded, encode_request(&r));
}

#[test]
fn frame_has_little_endian_length_prefix() {
    let r = req(1, "x", None, None, None, "agent");
    let payload = encode_request(&r);
    let frame = encode_frame(&payload);
    assert_eq!(frame.len(), 4 + payload.len());
    let len = payload.len() as u32;
    assert_eq!(frame[0], (len & 0xFF) as u8);
    assert_eq!(frame[1], ((len >> 8) & 0xFF) as u8);
    assert_eq!(frame[2], ((len >> 16) & 0xFF) as u8);
    assert_eq!(frame[3], ((len >> 24) & 0xFF) as u8);
    assert_eq!(&frame[4..], payload.as_slice());
    let prefix: Vec<u8> = frame[0..4].to_vec();
    assert_eq!(frame_payload_len(&prefix) as usize, payload.len());
}

#[test]
fn decode_skips_unknown_fields() {
    let mut payload = Vec::new();
    payload.extend(field(1, &42u32.to_le_bytes()));
    payload.extend(field(200, b"whatever future bytes"));
    payload.extend(field(2, &string_body("test")));
    let back = decode_request(&payload).unwrap();
    assert_eq!(back.pid, 42);
    assert_eq!(back.event, "test");
}

#[test]
fn decode_defaults_source_when_absent() {
    let mut payload = Vec::new();
    payload.extend(field(1, &1u32.to_le_bytes()));
    payload.extend(field(2, &string_body("test")));
    let back = decode_request(&payload).unwrap();
    assert_eq!(back.source, "agent");
    assert!(back.message.is_none());
    assert!(back.title_hint.is_none());
    assert!(back.process_tree.is_none());
}

#[test]
fn decode_later_field_overrides_earlier() {
    let mut payload = Vec::new();
    payload.extend(field(1, &1u32.to_le_bytes()));
    payload.extend(field(2, &string_body("first")));
    payload.extend(field(2, &string_body("second")));
    let back = decode_request(&payload).unwrap();
    assert_eq!(back.event, "second");
}

#[test]
fn decode_empty_payload_fails() {
    assert!(decode_request(&Vec::new()).is_err());
}

#[test]
fn decode_truncated_header_fails() {
    let payload = vec![1u8, 4, 0];
    assert!(decode_request(&payload).is_err());
}

#[test]
fn decode_truncated_body_fails() {
    let mut payload = vec![2u8];
    payload.extend_from_slice(&100u32.to_le_bytes());
    payload.extend_from_slice(&[0u8; 8]);
    assert!(decode_request(&payload).is_err());
}

#[test]
fn decode_missing_pid_fails() {
    let payload = field(2, &string_body("test"));
    assert!(decode_request(&payload).is_err());
}

#[test]
fn decode_missing_event_fails() {
    let payload = field(1, &1u32.to_le_bytes());
    assert!(decode_request(&payload).is_err());
}

#[test]
fn decode_bad_pid_length_fails() {
    let payload = field(1, &[1u8, 0]);
    assert!(decode_request(&payload).is_err());
}

#[test]
fn decode_surrogate_character_fails() {
    let mut payload = Vec::new();
    payload.extend(field(1, &1u32.to_le_bytes()));
    payload.extend(field(2, &0xD800u32.to_le_bytes()));
    assert!(decode_request(&payload).is_err());
}

#[test]
fn decode_ragged_string_body_fails() {
    let mut payload = Vec::new();
    payload.extend(field(1, &1u32.to_le_bytes()));
    payload.extend(field(2, &[65u8, 0, 0]));
    assert!(decode_request(&payload).is_err());
}

#[test]
fn decode_adversarial_noise_never_panics() {
    for seed in 0u32..200 {
        let mut bytes = Vec::new();
        let mut x = seed.wrapping_mul(2654435761).wrapping_add(1);
        for _ in 0..((seed % 64) as usize) {
            x = x.wrapping_mul(1664525).wrapping_add(1013904223);
            bytes.push((x >> 24) as u8);
        }
        let _ = decode_request(&bytes);
    }
}

#[test]
fn roundtrip_max_pid() {
    let r = req(u32::MAX, "test", None, None, None, "agent");
    let back = decode_request(&encode_request(&r)).unwrap();
    assert_eq!(back.pid, u32::MAX);
}
