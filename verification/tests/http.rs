use gbfr_lan::broker::empty_object;
use gbfr_lan::bytes::{decode, hex_text, push_be, push_le, read_be, read_le};
use gbfr_lan::codec::{can_be_blob, decode_boot_blob, encode_boot_blob, sha1_base64, SEAL_MOST};
use gbfr_lan::http::{body_value, content_length, early_body, header_timeout, http_head};
use gbfr_lan::http::{is_websocket_upgrade, note_peer, parse_request, read_progress, ws_action};
use gbfr_lan::http::{ws_frame, ws_length, ws_length_bytes, ws_message, ws_unmask, ws_upgrade};
use gbfr_lan::http::{FrameAction, Progress, HEAD_CEILING};
use gbfr_lan::ini::read_settings;
use gbfr_lan::json::{string, Json};
use gbfr_lan::lobby_json::parse_json_string;
use gbfr_lan::lan_cfg::{load_lan_cfg, rewrite_http_url_to_stub};

fn headers(v: &[(&str, &str)]) -> Vec<(String, String)> {
    v.iter().map(|(k, v)| (k.to_string(), v.to_string())).collect()
}

#[test]
fn request_is_read() {
    let raw = b"POST /a/b?c=d HTTP/1.1\r\nHost: x:1\r\nContent-LENGTH: 4\r\nHost: y\r\n\r\n{}{}rest";
    assert_eq!(read_progress(raw), Progress::Complete);
    let h = parse_request(raw).unwrap();
    assert_eq!(h.method, "POST");
    assert_eq!(h.path, "/a/b?c=d");
    assert_eq!(h.headers, headers(&[("host", "y"), ("content-length", "4")]));
    assert_eq!(content_length(&h.headers), 4);
    assert_eq!(early_body(raw), b"{}{}rest");
    assert!(parse_request(b"\r\n\r\n").is_none());
}

#[test]
fn reading_goes_on_until_the_blank_line() {
    assert_eq!(read_progress(b"GET / HTTP/1.1\r\n"), Progress::More);
    assert_eq!(read_progress(&[0x16, 0x03, 0x01]), Progress::Tls);
    let long = vec![b'x'; HEAD_CEILING + 1];
    assert_eq!(read_progress(&long), Progress::TooLarge);
    assert_eq!(header_timeout(8081, 8080), Some(15));
    assert_eq!(header_timeout(8081, 8081), None);
    assert_eq!(header_timeout(0, 0), Some(15));
}

#[test]
fn answer_has_its_header() {
    assert_eq!(
        http_head(200, "application/json", 2),
        "HTTP/1.1 200 OK\r\nContent-Type: application/json\r\nContent-Length: 2\r\nConnection: close\r\nAccess-Control-Allow-Origin: *\r\n\r\n"
    );
}

#[test]
fn body_that_is_no_json_is_kept_as_text() {
    assert_eq!(body_value(b"", None).render(), "{}");
    assert_eq!(body_value(b"a\xffb", None).render(), "{\"_raw\":\"a\u{fffd}b\"}");
    assert_eq!(body_value(b"1", Some(Json::Number("1".to_string()))).render(), "1");
}

#[test]
fn peer_is_noted_once() {
    let mut h = headers(&[]);
    note_peer(&mut h, "10.0.0.1");
    note_peer(&mut h, "10.0.0.2");
    assert_eq!(h, headers(&[("x-peer-ip", "10.0.0.1")]));
}

#[test]
fn upgrade_is_accepted_with_the_digest_of_its_key() {
    let h = headers(&[
        ("upgrade", "h2c, WebSocket"),
        ("sec-websocket-key", "dGhlIHNhbXBsZSBub25jZQ=="),
        ("sec-websocket-protocol", "chat"),
    ]);
    assert!(is_websocket_upgrade(&h));
    let r = ws_upgrade(&h).unwrap();
    assert!(r.contains("Sec-WebSocket-Accept: s3pPLMBiTxaQ9kYGzzhZRbK+xOo=\r\n"), "{r}");
    assert!(r.contains("Sec-WebSocket-Protocol: chat\r\n"));
    assert!(ws_upgrade(&headers(&[])).is_none());
    assert!(!is_websocket_upgrade(&headers(&[("upgrade", "websockets")])));
    assert_eq!(sha1_base64("a", "bc"), "qZk+NkcGgWq6PiVxeFDCbJzQ2J0=");
}

#[test]
fn frames_are_read_with_the_length_they_are_written_with() {
    for n in [0usize, 1, 125, 126, 65535, 65536, 1_000_000] {
        let payload = vec![7u8; n];
        let f = ws_frame(&payload);
        assert_eq!(f[0], 0x82);
        let k = ws_length_bytes(f[1]);
        assert_eq!(ws_length(f[1], &f[2..2 + k]), Some(n as u64));
        assert_eq!(&f[2 + k..], &payload[..]);
    }
    let f = ws_frame(&vec![0u8; 1_000_001]);
    assert_eq!(ws_length(f[1], &f[2..10]), None);
}

#[test]
fn mask_is_taken_off() {
    let mask = [0x37, 0xfa, 0x21, 0x3d];
    let hidden = [0x7f, 0x9f, 0x4d, 0x51, 0x58];
    assert_eq!(ws_unmask(&hidden, &mask), b"Hello");
    assert_eq!(ws_unmask(&ws_unmask(b"again", &mask), &mask), b"again");
}

#[test]
fn frames_ask_for_something() {
    assert!(matches!(ws_action(0x88, b""), FrameAction::Close));
    match ws_action(0x89, b"hi") {
        FrameAction::Write(v) => assert_eq!(v, [0x8a, 2, b'h', b'i']),
        _ => panic!("a ping is answered"),
    }
    assert!(matches!(ws_action(0x89, &[0; 126]), FrameAction::Ignore));
    assert!(matches!(ws_action(0x81, b"x"), FrameAction::Message));
    assert!(matches!(ws_action(0x8a, b""), FrameAction::Ignore));
}

#[test]
fn message_is_answered_with_its_command() {
    let m = Json::Object(vec![
        ("command".to_string(), string("join_lobby")),
        ("params".to_string(), empty_object()),
        ("lobby_search_id".to_string(), string("s1")),
    ]);
    assert_eq!(
        ws_message(b"", Some(m)).unwrap().render(),
        "{\"command\":\"join_lobby\",\"params\":{\"lobby_search_id\":\"s1\"}}"
    );
    assert_eq!(
        ws_message(b"..join_lobby..", None).unwrap().render(),
        "{\"command\":\"join_lobby\",\"params\":{}}"
    );
    assert!(ws_message(b"other", None).is_none());
}

#[test]
fn boot_blob_is_sealed_and_opened() {
    let blob = encode_boot_blob(b"{\"a\":1}", 1_700_000_000);
    assert!(blob.iter().all(|b| b.is_ascii()));
    assert_eq!(decode_boot_blob(&blob).unwrap(), b"{\"a\":1}");
    assert_eq!(decode_boot_blob(b"AAAA").unwrap_err(), "boot blob shorter than nonce+tag");
    assert!(decode_boot_blob(b"*").is_err());
    let mut other = blob.clone();
    other[30] = if other[30] == b'A' { b'B' } else { b'A' };
    assert!(decode_boot_blob(&other).is_err());
}

#[test]
fn numbers_are_written_and_read_in_both_orders() {
    let mut le = Vec::new();
    push_le(&mut le, 0x1234, 4);
    assert_eq!(le, [0x34, 0x12, 0, 0]);
    assert_eq!(read_le(&le), 0x1234);
    let mut be = Vec::new();
    push_be(&mut be, 0x1234, 4);
    assert_eq!(be, [0, 0, 0x12, 0x34]);
    assert_eq!(read_be(&be), 0x1234);
    assert_eq!(hex_text(&[0x0a, 0xff]), "0aff");
}

#[test]
fn bytes_that_are_no_text_are_replaced() {
    assert_eq!(decode(b"caf\xc3\xa9"), "caf\u{e9}");
    assert_eq!(decode(b"a\xff"), "a\u{fffd}");
}

#[test]
fn settings_are_read_line_by_line() {
    let v = read_settings("; note\n[Net]\nHost = 10.0.0.1\n# x\nPort=99\n");
    let text = |c: &Vec<char>| c.iter().collect::<String>();
    let flat: Vec<(String, String, String)> =
        v.iter().map(|e| (text(&e.section), text(&e.key), text(&e.value))).collect();
    let net = |k: &str, v: &str| ("net".to_string(), k.to_string(), v.to_string());
    assert_eq!(flat, vec![net("host", "10.0.0.1"), net("port", "99")]);
}

#[test]
fn settings_give_the_address_of_the_broker() {
    let c = load_lan_cfg(None, None);
    assert_eq!(c.host_port(), "127.0.0.1:8080");
    let file = "[Server]\nHost=10.9.9.9 ; here\nport=x\nws_port=9001\n[party]\nudp_port=4000\nadvertise_ip=10.0.0.7\n";
    let c = load_lan_cfg(Some(file), None);
    assert_eq!(c.origin(), "http://10.9.9.9:8080");
    assert_eq!(c.ws_url(), "ws://10.9.9.9:9001/");
    assert_eq!(c.udp_port, 4000);
    assert_eq!(c.advertise_ip.as_deref(), Some("10.0.0.7"));
    let stub = load_lan_cfg(Some(file), Some("10.1.2.3:7777"));
    assert_eq!(stub.origin(), "http://10.1.2.3:7777");
    assert_eq!(load_lan_cfg(None, Some(":7")).host_port(), "127.0.0.1:7");
    assert_eq!(
        rewrite_http_url_to_stub("https://title.playfabapi.com/Lobby/FindLobbies?x=1", &stub),
        "http://10.1.2.3:7777/Lobby/FindLobbies?x=1"
    );
}

#[test]
fn blobs_have_their_limits() {
    assert_eq!(SEAL_MOST, 64 * 0xffff_fffe);
    let most = SEAL_MOST as usize;
    assert!(can_be_blob(0));
    assert!(can_be_blob(0x2000_0001));
    assert!(can_be_blob(most));
    assert!(!can_be_blob(most + 1));
    assert!(!can_be_blob(most + 63));
    assert!(can_be_blob(most + 64));
    assert_eq!(decode_boot_blob(&encode_boot_blob(b"", 0)).unwrap(), b"");
    let long = vec![7u8; 100_000];
    assert_eq!(decode_boot_blob(&encode_boot_blob(&long, 5)).unwrap(), long);
    let mut other = encode_boot_blob(b"abc", 5);
    other[20] = if other[20] == b'A' { b'B' } else { b'A' };
    assert_eq!(decode_boot_blob(&other).unwrap_err(), "aead::Error");
}

#[test]
fn strings_are_written_as_json() {
    let t = "\u{0}\u{8}\t\n\u{b}\u{c}\r\u{1f} \"/\\\u{7f}\u{e9}\u{1f600}";
    assert_eq!(
        string(t).render(),
        "\"\\u0000\\b\\t\\n\\u000b\\f\\r\\u001f \\\"/\\\\\u{7f}\u{e9}\u{1f600}\""
    );
    assert_eq!(serde_json::from_str::<String>(&string(t).render()).unwrap(), t);
    // The client reads it too, backspace and form feed apart.
    let u = "\u{0}\t\n\r\u{1f} \"/\\\u{e9}\u{1f600}";
    let b = string(u).render().into_bytes();
    assert_eq!(parse_json_string(&b, 0), (Some(u.to_string()), b.len()));
    assert_eq!(parse_json_string(&b, 1), (None, 1));
    assert_eq!(parse_json_string(&b, 999), (None, 999));
    assert_eq!(parse_json_string(b"\"ab", 0), (None, 3));
}
