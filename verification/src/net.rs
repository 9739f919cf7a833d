//! What the host shell answers: to plain HTTP requests, and to the
//! messages of a WebSocket connection.

use vstd::prelude::*;
use vstd::string::StringSliceAdditionalSpecFns;
use crate::lossy::{broken_len, lead_width, valid_end, well_formed, width_of, Utf8Lossy};
use crate::printf::{decimal, write_decimal};
use crate::util::StringWriter;

verus! {

/// The page that the root path serves.
pub const ROOT_HTML: &'static str = "<!doctype html><html></html>";

/// An answer to an HTTP request: a status code and a body.
#[derive(Debug, Clone, Copy)]
pub struct HttpResponse<'a> {
    pub status: u16,
    pub body: &'a [u8],
}

/// The kinds of message that a WebSocket connection receives.
#[derive(Debug, Clone, Copy, PartialEq, Eq, Structural)]
pub enum ReceiveKind {
    Text,
    Binary,
    CloseCompleted,
    CloseMustReply,
    Ping,
    Pong,
}

/// The kinds of message that a WebSocket connection sends.
#[derive(Debug, Clone, Copy, PartialEq, Eq, Structural)]
pub enum SendKind {
    Text,
    Binary,
    Ping,
    Pong,
    CloseReply,
}

/// What to do about a received message.
#[derive(Debug)]
pub enum WSResponse {
    /// Send a message.
    Response { message_type: SendKind, message: Vec<u8> },
    /// Close the connection.
    Close,
    /// Do nothing.
    Ignore,
}

/// Whether two byte strings are the same.
pub fn bytes_equal(a: &[u8], b: &[u8]) -> (same: bool)
    ensures
        same == (a@ == b@),
{
    if a.len() != b.len() {
        return false;
    }
    let mut i: usize = 0;
    while i < a.len()
        invariant
            i <= a@.len(),
            a@.len() == b@.len(),
            forall|k: int| 0 <= k < i ==> a@[k] == b@[k],
        decreases a@.len() - i,
    {
        if a[i] != b[i] {
            return false;
        }
        i = i + 1;
    }
    assert(a@ =~= b@);
    true
}

/// The answer to a plain HTTP request for `path`: the root path serves the
/// page, the icon is not found and has no body, and every other path is
/// not found and serves the page.
pub fn respond_to_http_request(path: &str) -> (r: HttpResponse<'static>)
    ensures
        r.status == if path.spec_bytes() == "/".spec_bytes() {
            200u16
        } else {
            404u16
        },
        r.body@ == if path.spec_bytes() == "/favicon.ico".spec_bytes() {
            Seq::<u8>::empty()
        } else {
            ROOT_HTML.spec_bytes()
        },
{
    proof {
        reveal_strlit("/");
        reveal_strlit("/favicon.ico");
        assert("/"@.len() != "/favicon.ico"@.len());
        vstd::utf8::encode_utf8_decode_utf8("/"@);
        vstd::utf8::encode_utf8_decode_utf8("/favicon.ico"@);
    }
    if bytes_equal(path.as_bytes(), "/".as_bytes()) {
        HttpResponse { status: 200, body: ROOT_HTML.as_bytes() }
    } else if bytes_equal(path.as_bytes(), "/favicon.ico".as_bytes()) {
        let body: &'static [u8] = vstd::slice::slice_subrange(ROOT_HTML.as_bytes(), 0, 0);
        HttpResponse { status: 404, body }
    } else {
        HttpResponse { status: 404, body: ROOT_HTML.as_bytes() }
    }
}

/// Whether the first ill-formed sequence of `s` is the beginning of a
/// sequence that the end of `s` cuts off.
pub open spec fn cut_off(s: Seq<u8>) -> bool {
    let at = valid_end(s, 0);
    at < s.len() && lead_width(s[at]) > 0 && at + broken_len(s) == s.len()
}

/// The text that answers the text message `s` which is no well-formed
/// UTF-8. It names the index of the first ill-formed sequence, and the
/// length of that sequence unless the end of `s` cuts it off.
pub open spec fn invalid_text_reply(s: Seq<u8>) -> Seq<u8> {
    let at = decimal(valid_end(s, 0) as nat);
    if cut_off(s) {
        "received invalid UTF-8 (incomplete utf-8 byte sequence from index ".spec_bytes() + at
            + ")".spec_bytes()
    } else {
        "received invalid UTF-8 (invalid utf-8 sequence of ".spec_bytes() + decimal(
            broken_len(s) as nat,
        ) + " bytes from index ".spec_bytes() + at + ")".spec_bytes()
    }
}

/// What to do about a received message with the payload `ws_buffer`: a
/// text message is echoed where it is well-formed UTF-8 and answered with
/// a complaint where it is not, a ping is answered with a pong and a close
/// request with a close reply, both with the payload that came, a
/// completed close closes the connection, and everything else is ignored.
pub fn ws_respond(message_type: ReceiveKind, ws_buffer: &[u8]) -> (r: WSResponse)
    ensures
        match message_type {
            ReceiveKind::Text => r matches WSResponse::Response { message_type, message }
                && message_type == SendKind::Text && message@ == if well_formed(ws_buffer@) {
                ws_buffer@
            } else {
                invalid_text_reply(ws_buffer@)
            },
            ReceiveKind::CloseCompleted => r is Close,
            ReceiveKind::CloseMustReply => r matches WSResponse::Response { message_type, message }
                && message_type == SendKind::CloseReply && message@ == ws_buffer@,
            ReceiveKind::Ping => r matches WSResponse::Response { message_type, message }
                && message_type == SendKind::Pong && message@ == ws_buffer@,
            _ => r is Ignore,
        },
{
    match message_type {
        ReceiveKind::Text => {
            let mut iter = Utf8Lossy::from_bytes(ws_buffer).chunks();
            let chunk = iter.next();
            if chunk.broken.len() == 0 {
                WSResponse::Response {
                    message_type: SendKind::Text,
                    message: vstd::slice::slice_to_vec(ws_buffer),
                }
            } else {
                let at: usize = chunk.valid.len();
                assert(chunk.broken@[0] == ws_buffer@[at as int]);
                let mut out = StringWriter::new();
                if width_of(chunk.broken[0]) > 0 && chunk.broken.len() == ws_buffer.len() - at {
                    out.append(
                        "received invalid UTF-8 (incomplete utf-8 byte sequence from index ".as_bytes(),
                    );
                } else {
                    out.append("received invalid UTF-8 (invalid utf-8 sequence of ".as_bytes());
                    write_decimal(&mut out, chunk.broken.len() as u64);
                    out.append(" bytes from index ".as_bytes());
                }
                write_decimal(&mut out, at as u64);
                out.append(")".as_bytes());
                assert(out@ =~= invalid_text_reply(ws_buffer@));
                WSResponse::Response {
                    message_type: SendKind::Text,
                    message: vstd::slice::slice_to_vec(out.as_bytes().as_slice()),
                }
            }
        },
        ReceiveKind::CloseCompleted => WSResponse::Close,
        ReceiveKind::CloseMustReply => WSResponse::Response {
            message_type: SendKind::CloseReply,
            message: vstd::slice::slice_to_vec(ws_buffer),
        },
        ReceiveKind::Ping => WSResponse::Response {
            message_type: SendKind::Pong,
            message: vstd::slice::slice_to_vec(ws_buffer),
        },
        _ => WSResponse::Ignore,
    }
}

} // verus!
