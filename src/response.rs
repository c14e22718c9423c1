use vstd::prelude::*;

use crate::bytes::{CR, LF};

verus! {

/// The status codes a response can carry.
#[derive(Clone, Copy, Debug, PartialEq, Eq, Structural)]
pub enum StatusCode {
    Success,
    BadRequest,
    NotFound,
    InternalServerError,
}

/// The numeric code of a status.
pub open spec fn status_number(s: StatusCode) -> nat {
    match s {
        StatusCode::Success => 200,
        StatusCode::BadRequest => 400,
        StatusCode::NotFound => 404,
        StatusCode::InternalServerError => 500,
    }
}

/// The ASCII reason phrase of a status.
pub open spec fn reason_phrase(s: StatusCode) -> Seq<u8> {
    match s {
        // OK
        StatusCode::Success => seq![79u8, 75],
        // Bad Request
        StatusCode::BadRequest => seq![66u8, 97, 100, 32, 82, 101, 113, 117, 101, 115, 116],
        // Not Found
        StatusCode::NotFound => seq![78u8, 111, 116, 32, 70, 111, 117, 110, 100],
        // Internal Server Error
        StatusCode::InternalServerError => seq![
            73u8, 110, 116, 101, 114, 110, 97, 108, 32, 83, 101, 114, 118, 101, 114, 32, 69, 114,
            114, 111, 114,
        ],
    }
}

/// The decimal digits of `n`, most significant first, without leading zeros.
pub open spec fn decimal(n: nat) -> Seq<u8>
    decreases n,
{
    if n < 10 {
        seq![(48 + n) as u8]
    } else {
        decimal(n / 10).push((48 + n % 10) as u8)
    }
}

/// The number that a sequence of decimal digits stands for.
pub open spec fn digits_value(s: Seq<u8>) -> nat
    decreases s.len(),
{
    if s.len() == 0 {
        0
    } else {
        digits_value(s.drop_last()) * 10 + (s.last() - 48) as nat
    }
}

/// CR LF, the end of a line.
pub open spec fn crlf() -> Seq<u8> {
    seq![CR, LF]
}

/// `HTTP/1.1 `
pub open spec fn version_prefix() -> Seq<u8> {
    seq![72u8, 84, 84, 80, 47, 49, 46, 49, 32]
}

/// `Content-Length: `
pub open spec fn content_length_prefix() -> Seq<u8> {
    seq![67u8, 111, 110, 116, 101, 110, 116, 45, 76, 101, 110, 103, 116, 104, 58, 32]
}

/// `HTTP/1.1 <code> <reason>` and CR LF.
pub open spec fn status_line(s: StatusCode) -> Seq<u8> {
    version_prefix() + decimal(status_number(s)) + seq![32u8] + reason_phrase(s) + crlf()
}

/// `Content-Length: <n>` and CR LF.
pub open spec fn content_length_line(n: nat) -> Seq<u8> {
    content_length_prefix() + decimal(n) + crlf()
}

/// The mathematical content of a response.
pub struct ResponseModel {
    pub status: StatusCode,
    pub body: Option<Seq<u8>>,
}

/// The bytes a response is written as: the status line, a Content-Length
/// line when there is a body, a blank line, then the body.
pub open spec fn serialize_spec(r: ResponseModel) -> Seq<u8> {
    match r.body {
        Some(b) => status_line(r.status) + content_length_line(b.len()) + crlf() + b,
        None => status_line(r.status) + crlf(),
    }
}

/// A response: a status and an optional body.
#[derive(Clone, Debug)]
pub struct Response {
    status: StatusCode,
    body: Option<Vec<u8>>,
}

impl View for Response {
    type V = ResponseModel;

    closed spec fn view(&self) -> ResponseModel {
        ResponseModel {
            status: self.status,
            body: match self.body {
                Some(b) => Some(b@),
                None => None,
            },
        }
    }
}

/// Appends the bytes of `bytes` to `out`.
fn push_bytes(out: &mut Vec<u8>, bytes: &[u8])
    ensures
        final(out)@ == old(out)@ + bytes@,
{
    let ghost start = out@;
    let mut i: usize = 0;
    while i < bytes.len()
        invariant
            i <= bytes@.len(),
            out@ == start + bytes@.subrange(0, i as int),
        decreases bytes@.len() - i,
    {
        out.push(bytes[i]);
        i = i + 1;
        assert(out@ =~= start + bytes@.subrange(0, i as int));
    }
    assert(bytes@.subrange(0, i as int) =~= bytes@);
}

/// Appends the decimal digits of `n` to `out`.
fn push_decimal(out: &mut Vec<u8>, n: usize)
    ensures
        final(out)@ == old(out)@ + decimal(n as nat),
    decreases n,
{
    if n < 10 {
        out.push(48 + n as u8);
        assert(out@ =~= old(out)@ + decimal(n as nat));
    } else {
        push_decimal(out, n / 10);
        out.push(48 + (n % 10) as u8);
        assert(out@ =~= old(out)@ + decimal(n as nat));
    }
}

impl StatusCode {
    /// The numeric code of this status.
    pub fn code(&self) -> (r: u16)
        ensures
            r as nat == status_number(*self),
    {
        match self {
            StatusCode::Success => 200,
            StatusCode::BadRequest => 400,
            StatusCode::NotFound => 404,
            StatusCode::InternalServerError => 500,
        }
    }

    /// The reason phrase of this status, as ASCII bytes.
    pub fn reason_phrase(&self) -> (r: Vec<u8>)
        ensures
            r@ == reason_phrase(*self),
    {
        match self {
            StatusCode::Success => vec![79u8, 75],
            StatusCode::BadRequest => vec![66u8, 97, 100, 32, 82, 101, 113, 117, 101, 115, 116],
            StatusCode::NotFound => vec![78u8, 111, 116, 32, 70, 111, 117, 110, 100],
            StatusCode::InternalServerError => vec![
                73u8, 110, 116, 101, 114, 110, 97, 108, 32, 83, 101, 114, 118, 101, 114, 32, 69,
                114, 114, 111, 114,
            ],
        }
    }
}

impl Response {
    /// A response with the given status and body.
    pub fn new(status: StatusCode, body: Option<Vec<u8>>) -> (r: Response)
        ensures
            r@.status == status,
            r@.body == (match body {
                Some(b) => Some(b@),
                None => None::<Seq<u8>>,
            }),
    {
        Response { status, body }
    }

    /// The bytes this response is written as.
    pub fn serialize(&self) -> (r: Vec<u8>)
        ensures
            r@ == serialize_spec(self@),
    {
        let mut out: Vec<u8> = Vec::new();
        let prefix: Vec<u8> = vec![72u8, 84, 84, 80, 47, 49, 46, 49, 32];
        push_bytes(&mut out, prefix.as_slice());
        push_decimal(&mut out, self.status.code() as usize);
        out.push(32u8);
        let reason = self.status.reason_phrase();
        push_bytes(&mut out, reason.as_slice());
        out.push(CR);
        out.push(LF);
        assert(out@ =~= status_line(self.status));
        match &self.body {
            Some(b) => {
                let cl: Vec<u8> = vec![
                    67u8, 111, 110, 116, 101, 110, 116, 45, 76, 101, 110, 103, 116, 104, 58, 32,
                ];
                push_bytes(&mut out, cl.as_slice());
                push_decimal(&mut out, b.len());
                out.push(CR);
                out.push(LF);
                out.push(CR);
                out.push(LF);
                push_bytes(&mut out, b.as_slice());
                assert(out@ =~= serialize_spec(self@));
            },
            None => {
                out.push(CR);
                out.push(LF);
                assert(out@ =~= serialize_spec(self@));
            },
        }
        out
    }
}

} // verus!
