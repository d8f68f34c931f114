//! The HTTP response encoder: status line, content type, a
//! `Content-Length` that always equals the body's length in bytes, a
//! blank line, and the body.

use vstd::prelude::*;
use vstd::string::is_ascii;
use crate::json::{json_quoted, json_quote};
use crate::text::{ascii_bytes, append_bytes, dec_rep, lit, u64_to_dec};

verus! {

/// The two content types the service ever emits.
#[derive(Clone, Copy, PartialEq, Eq, Structural, Debug)]
pub enum ContentType {
    Json,
    Text,
}

pub open spec fn content_type_bytes(ct: ContentType) -> Seq<u8> {
    match ct {
        ContentType::Json => ascii_bytes("application/json"@),
        ContentType::Text => ascii_bytes("text/plain"@),
    }
}

/// The reason phrase for each status code the service uses.
pub open spec fn reason_phrase(code: u16) -> Seq<char> {
    if code == 200 {
        "OK"@
    } else if code == 400 {
        "Bad Request"@
    } else if code == 403 {
        "Forbidden"@
    } else if code == 404 {
        "Not Found"@
    } else if code == 405 {
        "Method Not Allowed"@
    } else if code == 500 {
        "Internal Server Error"@
    } else {
        "Unknown"@
    }
}

/// The reason phrase that stands beside `code` in the status line.
pub fn http_status_text(code: u16) -> (r: &'static str)
    ensures
        r@ == reason_phrase(code),
        is_ascii(r),
{
    proof {
        reveal_strlit("OK");
        reveal_strlit("Bad Request");
        reveal_strlit("Forbidden");
        reveal_strlit("Not Found");
        reveal_strlit("Method Not Allowed");
        reveal_strlit("Internal Server Error");
        reveal_strlit("Unknown");
    }
    match code {
        200 => "OK",
        400 => "Bad Request",
        403 => "Forbidden",
        404 => "Not Found",
        405 => "Method Not Allowed",
        500 => "Internal Server Error",
        _ => "Unknown",
    }
}

/// A response before encoding.  The body is bytes; `Content-Length` is
/// computed from it at encoding time, so the two cannot disagree.
pub struct HttpResponse {
    pub code: u16,
    pub content_type: ContentType,
    pub body: Vec<u8>,
}

/// The full wire form of a response.
pub open spec fn encoded_response(code: u16, ct: ContentType, body: Seq<u8>) -> Seq<u8> {
    ascii_bytes("HTTP/1.1 "@) + dec_rep(code as nat) + seq![32u8] + ascii_bytes(
        reason_phrase(code),
    ) + ascii_bytes("\r\nContent-Type: "@) + content_type_bytes(ct) + ascii_bytes(
        "\r\nContent-Length: "@,
    ) + dec_rep(body.len()) + ascii_bytes("\r\n\r\n"@) + body
}

impl HttpResponse {
    /// Encodes the response: `HTTP/1.1 <code> <reason>`, the content
    /// type, a `Content-Length` equal to the body's byte length, a
    /// blank line, and the body.
    pub fn encode(&self) -> (r: Vec<u8>)
        ensures
            r@ == encoded_response(self.code, self.content_type, self.body@),
    {
        proof {
            reveal_strlit("HTTP/1.1 ");
            reveal_strlit("\r\nContent-Type: ");
            reveal_strlit("application/json");
            reveal_strlit("text/plain");
            reveal_strlit("\r\nContent-Length: ");
            reveal_strlit("\r\n\r\n");
        }
        let mut r = lit("HTTP/1.1 ");
        let code_dec = u64_to_dec(self.code as u64);
        append_bytes(&mut r, &code_dec);
        r.push(32);
        let reason = lit(http_status_text(self.code));
        append_bytes(&mut r, &reason);
        let ct_line = lit("\r\nContent-Type: ");
        append_bytes(&mut r, &ct_line);
        let ct = match self.content_type {
            ContentType::Json => lit("application/json"),
            ContentType::Text => lit("text/plain"),
        };
        append_bytes(&mut r, &ct);
        let cl_line = lit("\r\nContent-Length: ");
        append_bytes(&mut r, &cl_line);
        let len_dec = u64_to_dec(self.body.len() as u64);
        append_bytes(&mut r, &len_dec);
        let blank = lit("\r\n\r\n");
        append_bytes(&mut r, &blank);
        append_bytes(&mut r, &self.body);
        r
    }
}

/// The body of every error response: a one-field JSON object holding
/// the message.
pub open spec fn json_error_body(msg: Seq<u8>) -> Seq<u8> {
    ascii_bytes("{\"error\":"@) + json_quoted(msg) + seq![125u8]
}

/// An error response: the code, the JSON content type, and a body of
/// `{"error":<message>}`.
pub fn json_error_response(code: u16, message: &Vec<u8>) -> (r: HttpResponse)
    ensures
        r.code == code,
        r.content_type is Json,
        r.body@ == json_error_body(message@),
{
    proof {
        reveal_strlit("{\"error\":");
    }
    let mut body = lit("{\"error\":");
    let q = json_quote(message);
    append_bytes(&mut body, &q);
    body.push(125);
    proof {
        assert(body@ =~= json_error_body(message@));
    }
    HttpResponse { code, content_type: ContentType::Json, body }
}

} // verus!
