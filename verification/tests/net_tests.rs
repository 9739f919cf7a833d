use tci::net::{
    bytes_equal, respond_to_http_request, ws_respond, ReceiveKind, SendKind, WSResponse, ROOT_HTML,
};

#[test]
fn the_root_path_serves_the_page() {
    let response = respond_to_http_request("/");
    assert_eq!((response.status, response.body), (200, ROOT_HTML.as_bytes()));
    assert_eq!(ROOT_HTML, "<!doctype html><html></html>");
}

#[test]
fn other_paths_are_not_found() {
    let icon = respond_to_http_request("/favicon.ico");
    assert_eq!((icon.status, icon.body), (404, &b""[..]));
    for path in ["", "/index.html", "//", "/favicon.ic", "/favicon.icon", "/chat"] {
        let response = respond_to_http_request(path);
        assert_eq!((response.status, response.body), (404, ROOT_HTML.as_bytes()));
    }
}

fn reply(kind: ReceiveKind, payload: &[u8]) -> Option<(SendKind, Vec<u8>)> {
    match ws_respond(kind, payload) {
        WSResponse::Response { message_type, message } => Some((message_type, message)),
        WSResponse::Close => panic!("the connection is closed"),
        WSResponse::Ignore => None,
    }
}

#[test]
fn text_is_echoed() {
    assert_eq!(reply(ReceiveKind::Text, b"hello"), Some((SendKind::Text, b"hello".to_vec())));
    assert_eq!(reply(ReceiveKind::Text, b""), Some((SendKind::Text, Vec::new())));
    let text = "größer €".as_bytes();
    assert_eq!(reply(ReceiveKind::Text, text), Some((SendKind::Text, text.to_vec())));
}

#[test]
fn ill_formed_text_is_answered_with_a_complaint() {
    let complaint = |text: &str| Some((SendKind::Text, text.as_bytes().to_vec()));
    assert_eq!(
        reply(ReceiveKind::Text, b"\xFF"),
        complaint("received invalid UTF-8 (invalid utf-8 sequence of 1 bytes from index 0)")
    );
    assert_eq!(
        reply(ReceiveKind::Text, b"ab\xC3"),
        complaint("received invalid UTF-8 (incomplete utf-8 byte sequence from index 2)")
    );
    assert_eq!(
        reply(ReceiveKind::Text, b"0123456789\xE2\x82"),
        complaint("received invalid UTF-8 (incomplete utf-8 byte sequence from index 10)")
    );
    assert_eq!(
        reply(ReceiveKind::Text, b"0123456789\xE2\x82z"),
        complaint("received invalid UTF-8 (invalid utf-8 sequence of 2 bytes from index 10)")
    );
    assert_eq!(
        reply(ReceiveKind::Text, b"\xF0\x9F\x92!"),
        complaint("received invalid UTF-8 (invalid utf-8 sequence of 3 bytes from index 0)")
    );
}

#[test]
fn the_complaint_is_the_text_of_the_decoding_error() {
    let cases: [&[u8]; 14] = [
        b"a\x80",
        b"\xC3\xA9\xED\xA0\x80",
        b"ok\xF8",
        b"\xC0",
        b"\xC1\x80",
        b"\xE0\x80\x80",
        b"\xE0\xA0",
        b"\xED",
        b"\xF0\x90\x80",
        b"\xF4\x90",
        b"\xF4\x8F\xBF",
        b"\xF1\x80A",
        b"caf\xC3\xA9 \xE2\x82\xAC \xF0\x9F",
        b"\xC2 ",
    ];
    for bytes in cases {
        let error = std::str::from_utf8(bytes).unwrap_err();
        let text = format!("received invalid UTF-8 ({})", error);
        assert_eq!(reply(ReceiveKind::Text, bytes), Some((SendKind::Text, text.into_bytes())));
    }
}

fn expected_reply(bytes: &[u8]) -> Vec<u8> {
    match std::str::from_utf8(bytes) {
        Ok(text) => text.as_bytes().to_vec(),
        Err(error) => format!("received invalid UTF-8 ({})", error).into_bytes(),
    }
}

#[test]
fn short_texts_are_answered_as_the_decoder_judges_them() {
    for first in 0..=255u8 {
        assert_eq!(reply(ReceiveKind::Text, &[first]), Some((SendKind::Text, expected_reply(&[first]))));
        for second in 0..=255u8 {
            for tail in [&b""[..], b"\x80", b"\xBF\x80", b"A", b"\x9F\xC2"] {
                let mut bytes = vec![b'x', first, second];
                bytes.extend_from_slice(tail);
                let expected = expected_reply(&bytes);
                assert_eq!(reply(ReceiveKind::Text, &bytes), Some((SendKind::Text, expected)));
            }
        }
    }
}

#[test]
fn pings_and_close_requests_are_answered_with_their_payload() {
    assert_eq!(reply(ReceiveKind::Ping, b"\x01\xFF"), Some((SendKind::Pong, vec![1, 0xFF])));
    let closing = reply(ReceiveKind::CloseMustReply, b"\x03\xE8bye");
    assert_eq!(closing, Some((SendKind::CloseReply, b"\x03\xE8bye".to_vec())));
    assert!(matches!(ws_respond(ReceiveKind::CloseCompleted, b"x"), WSResponse::Close));
}

#[test]
fn other_messages_are_ignored() {
    assert_eq!(reply(ReceiveKind::Binary, b"\xFF"), None);
    assert_eq!(reply(ReceiveKind::Pong, b"abc"), None);
}

#[test]
fn byte_strings_are_compared() {
    assert!(bytes_equal(b"", b""));
    assert!(bytes_equal(b"abc", b"abc"));
    assert!(!bytes_equal(b"abc", b"abd"));
    assert!(!bytes_equal(b"abc", b"ab"));
    assert!(!bytes_equal(b"", b"a"));
}
