//! Wire codec behaviour: canonical JSON encoding, decoding, framing.

use pwsp::frame::{decode_frame, encode_frame, frame_body_len, MAX_FRAME_LEN};
use pwsp::wire::{decode_request, decode_response, encode_request, encode_response, Request,
    Response};

fn args(pairs: &[(&str, &str)]) -> Vec<(String, String)> {
    let mut v: Vec<(String, String)> = Vec::new();
    let mut i: usize = 0;
    while i < pairs.len() {
        v.push((pairs[i].0.to_string(), pairs[i].1.to_string()));
        i += 1;
    }
    v
}

#[test]
fn encode_plain_request() {
    let req = Request::new("ping", Vec::new());
    assert_eq!(encode_request(&req), "{\"name\":\"ping\",\"args\":{}}");
}

#[test]
fn encode_request_with_args() {
    let req = Request::new("play", args(&[("file_path", "/tmp/a.wav"), ("concurrent", "true")]));
    assert_eq!(
        encode_request(&req),
        "{\"name\":\"play\",\"args\":{\"file_path\":\"/tmp/a.wav\",\"concurrent\":\"true\"}}"
    );
}

#[test]
fn request_round_trip_plain() {
    let req = Request::new("get_state", Vec::new());
    let text = encode_request(&req);
    let back = decode_request(&text).expect("decodes");
    assert_eq!(back.name, "get_state");
    assert!(back.args.is_empty());
}

#[test]
fn request_round_trip_with_escapes() {
    let req = Request::new(
        "play",
        args(&[("file_path", "/tmp/weird \"name\"\\path\n.wav"), ("concurrent", "false")]),
    );
    let text = encode_request(&req);
    let back = decode_request(&text).expect("decodes");
    assert_eq!(back.name, "play");
    assert_eq!(back.args.len(), 2);
    assert_eq!(back.args[0].0, "file_path");
    assert_eq!(back.args[0].1, "/tmp/weird \"name\"\\path\n.wav");
    assert_eq!(back.args[1].1, "false");
}

#[test]
fn request_encoding_is_valid_json() {
    let req = Request::new(
        "play",
        args(&[("file_path", "/tmp/\"q\"\\b\t.wav"), ("concurrent", "true")]),
    );
    let text = encode_request(&req);
    let v: serde_json::Value = serde_json::from_str(&text).expect("valid JSON");
    assert_eq!(v["name"], "play");
    assert_eq!(v["args"]["file_path"], "/tmp/\"q\"\\b\t.wav");
    assert_eq!(v["args"]["concurrent"], "true");
}

#[test]
fn response_encoding_is_valid_json() {
    let resp = Response::new(false, "Unknown command");
    let text = encode_response(&resp);
    assert_eq!(text, "{\"status\":false,\"message\":\"Unknown command\"}");
    let v: serde_json::Value = serde_json::from_str(&text).expect("valid JSON");
    assert_eq!(v["status"], false);
    assert_eq!(v["message"], "Unknown command");
}

#[test]
fn response_round_trip() {
    let resp = Response::new(true, "pong \"quoted\"\\");
    let back = decode_response(&encode_response(&resp)).expect("decodes");
    assert_eq!(back.status, true);
    assert_eq!(back.message, "pong \"quoted\"\\");
}

#[test]
fn decode_rejects_malformed() {
    assert!(decode_request("").is_none());
    assert!(decode_request("{}").is_none());
    assert!(decode_request("{\"name\":\"ping\"}").is_none());
    assert!(decode_request("{\"name\":\"ping\",\"args\":{}} ").is_none());
    assert!(decode_request("{\"name\":\"ping\",\"args\":{\"k\":}}").is_none());
    assert!(decode_response("{\"status\":maybe,\"message\":\"x\"}").is_none());
}

#[test]
fn control_characters_use_unicode_escapes() {
    let req = Request::new("ping", args(&[("note", "a\u{1}b")]));
    let text = encode_request(&req);
    assert!(text.contains("a\\u0001b"));
    let back = decode_request(&text).expect("decodes");
    assert_eq!(back.args[0].1, "a\u{1}b");
}

#[test]
fn frame_layout_is_little_endian() {
    let body: Vec<u8> = vec![1, 2, 3];
    let framed = encode_frame(&body).expect("fits");
    assert_eq!(framed, vec![3, 0, 0, 0, 1, 2, 3]);
}

#[test]
fn frame_round_trip() {
    let body: Vec<u8> = b"{\"status\":true,\"message\":\"pong\"}".to_vec();
    let framed = encode_frame(&body).expect("fits");
    assert_eq!(frame_body_len(&framed), Some(body.len() as u32));
    assert_eq!(decode_frame(&framed).expect("whole frame"), body);
}

#[test]
fn frame_refuses_oversized_bodies() {
    let body: Vec<u8> = vec![0u8; (MAX_FRAME_LEN as usize) + 1];
    assert!(encode_frame(&body).is_none());
}

#[test]
fn frame_header_needs_four_bytes() {
    let short: Vec<u8> = vec![5, 0];
    assert!(frame_body_len(&short).is_none());
    assert!(decode_frame(&short).is_none());
    let truncated: Vec<u8> = vec![4, 0, 0, 0, 9];
    assert!(decode_frame(&truncated).is_none());
}

#[test]
fn request_constructors_carry_their_names() {
    assert_eq!(Request::ping().name, "ping");
    assert_eq!(Request::pause().name, "pause");
    assert_eq!(Request::resume().name, "resume");
    assert_eq!(Request::toggle_pause().name, "toggle_pause");
    assert_eq!(Request::stop().name, "stop");
    assert_eq!(Request::get_is_paused().name, "is_paused");
    assert_eq!(Request::get_volume().name, "get_volume");
    assert_eq!(Request::get_position().name, "get_position");
    assert_eq!(Request::get_duration().name, "get_duration");
    assert_eq!(Request::get_state().name, "get_state");
    assert_eq!(Request::get_current_file_path().name, "get_current_file_path");
    assert_eq!(Request::get_input().name, "get_input");
    assert_eq!(Request::get_inputs().name, "get_inputs");
    assert_eq!(Request::get_tracks().name, "get_tracks");
    assert_eq!(Request::get_full_state().name, "get_full_state");
    assert_eq!(Request::kill().name, "kill");
}

#[test]
fn request_constructors_carry_their_args() {
    let p = Request::play("/tmp/a.wav", true);
    assert_eq!(p.args, args(&[("file_path", "/tmp/a.wav"), ("concurrent", "true")]));
    let v = Request::set_volume(500);
    assert_eq!(v.args, args(&[("volume", "0.5")]));
    let s = Request::seek(1500);
    assert_eq!(s.args, args(&[("position", "1.5")]));
    let i = Request::set_input("mic0");
    assert_eq!(i.args, args(&[("input_name", "mic0")]));
}

#[test]
fn request_arg_lookup_takes_first_match() {
    let req = Request::new("x", args(&[("k", "first"), ("k", "second")]));
    assert_eq!(req.arg("k"), Some("first".to_string()));
    assert_eq!(req.arg("missing"), None);
}

#[test]
fn decoder_accepts_short_escapes() {
    let text = "{\"name\":\"ping\",\"args\":{\"note\":\"a\\nb\\tc\\rd\\be\\ff\\/g\"}}";
    let back = decode_request(text).expect("decodes");
    assert_eq!(back.args[0].0, "note");
    assert_eq!(back.args[0].1, "a\nb\tc\rd\u{8}e\u{c}f/g");
    let resp = "{\"status\":true,\"message\":\"line one\\nline two\"}";
    let r = decode_response(resp).expect("decodes");
    assert_eq!(r.message, "line one\nline two");
}

#[test]
fn decoder_reads_serde_escaped_strings() {
    // serde_json escapes control characters with the short forms the
    // canonical encoder avoids; both spell the same message.
    let message = "tab\there\nnewline";
    let serde_text = serde_json::to_string(&serde_json::Value::String(message.to_string()))
        .expect("serializes");
    let mine = format!("{{\"status\":true,\"message\":{}}}", serde_text);
    let r = decode_response(&mine).expect("decodes");
    assert_eq!(r.message, message);
}
