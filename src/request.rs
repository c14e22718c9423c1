use vstd::prelude::*;
use vstd::utf8::{decode_utf8, valid_utf8};
use vstd::slice::{slice_subrange, slice_to_vec};

use crate::bytes::{
    back_ows, back_ows_in, find_byte, find_byte_in, find_crlf, find_crlf_in, is_ows,
    lemma_back_ows, lemma_find_byte, lemma_find_crlf, lemma_skip_ows, pos_or_neg, skip_ows,
    skip_ows_in, slice_is, HTAB, SP,
};
use crate::method::{method_of, Method};

verus! {

/// Why a buffer failed to form a request.
#[derive(Clone, Copy, Debug, PartialEq, Eq, Structural)]
pub enum ParseErrorKind {
    /// The first line is not `METHOD PATH VERSION`.
    InvalidRequestLine,
    /// The method token is not one of the recognized methods.
    InvalidMethod,
    /// The version token is not of the form `HTTP/d.d`.
    InvalidProtocol,
    /// A header line has no name before a colon.
    InvalidHeader,
    /// The buffer ends before a line or the header block is terminated.
    IncompleteData,
    /// The path is not valid UTF-8.
    EncodingError,
}

/// A short description of each kind of parse failure.
pub open spec fn kind_description(k: ParseErrorKind) -> Seq<char> {
    match k {
        ParseErrorKind::InvalidRequestLine => "invalid request line"@,
        ParseErrorKind::InvalidMethod => "invalid method"@,
        ParseErrorKind::InvalidProtocol => "invalid protocol"@,
        ParseErrorKind::InvalidHeader => "invalid header"@,
        ParseErrorKind::IncompleteData => "incomplete data"@,
        ParseErrorKind::EncodingError => "invalid encoding"@,
    }
}

impl ParseErrorKind {
    /// A short description of this kind of failure.
    pub fn description(&self) -> (r: &'static str)
        ensures
            r@ == kind_description(*self),
    {
        match self {
            ParseErrorKind::InvalidRequestLine => "invalid request line",
            ParseErrorKind::InvalidMethod => "invalid method",
            ParseErrorKind::InvalidProtocol => "invalid protocol",
            ParseErrorKind::InvalidHeader => "invalid header",
            ParseErrorKind::IncompleteData => "incomplete data",
            ParseErrorKind::EncodingError => "invalid encoding",
        }
    }
}

/// A parse failure, with the bytes that caused it.
#[derive(Clone, Debug)]
pub struct ParseError {
    pub kind: ParseErrorKind,
    /// The offending line or token.
    pub context: Vec<u8>,
}

/// One header line as seen on the wire: its name, and its value with
/// surrounding whitespace removed.
#[derive(Clone, Debug)]
pub struct Header {
    pub name: Vec<u8>,
    pub value: Vec<u8>,
}

/// The mathematical content of a request.
pub struct RequestModel {
    pub method: Method,
    pub path: Seq<char>,
    pub version: Seq<char>,
    pub headers: Seq<(Seq<u8>, Seq<u8>)>,
    pub body: Option<Seq<u8>>,
}

/// A parsed request.
#[derive(Clone, Debug)]
pub struct Request {
    method: Method,
    path: String,
    version: String,
    headers: Vec<Header>,
    body: Option<Vec<u8>>,
}

impl View for ParseError {
    type V = (ParseErrorKind, Seq<u8>);

    open spec fn view(&self) -> (ParseErrorKind, Seq<u8>) {
        (self.kind, self.context@)
    }
}

impl View for Header {
    type V = (Seq<u8>, Seq<u8>);

    open spec fn view(&self) -> (Seq<u8>, Seq<u8>) {
        (self.name@, self.value@)
    }
}

/// The headers as name and value pairs.
pub open spec fn headers_view(hs: Seq<Header>) -> Seq<(Seq<u8>, Seq<u8>)> {
    hs.map_values(|h: Header| h@)
}

/// The body's bytes, if there is a body.
pub open spec fn body_view(b: Option<Vec<u8>>) -> Option<Seq<u8>> {
    match b {
        Some(v) => Some(v@),
        None => None,
    }
}

impl View for Request {
    type V = RequestModel;

    closed spec fn view(&self) -> RequestModel {
        RequestModel {
            method: self.method,
            path: self.path@,
            version: self.version@,
            headers: headers_view(self.headers@),
            body: body_view(self.body),
        }
    }
}

/// The outcome of a parse, seen through the views of its parts.
pub open spec fn parse_result_view(r: Result<Request, ParseError>) -> Result<
    RequestModel,
    (ParseErrorKind, Seq<u8>),
> {
    match r {
        Ok(q) => Ok(q@),
        Err(e) => Err(e@),
    }
}

/// The part of a buffer before its first NUL byte; the rest is padding.
pub open spec fn content(buf: Seq<u8>) -> Seq<u8> {
    let f = find_byte(buf, 0, 0, buf.len() as int);
    if f < 0 {
        buf
    } else {
        buf.subrange(0, f)
    }
}

/// `s[from..to]` is non-empty and holds no space or tab.
pub open spec fn is_token(s: Seq<u8>, from: int, to: int) -> bool {
    from < to && forall|i: int| from <= i < to ==> !is_ows(#[trigger] s[i])
}

/// An ASCII decimal digit.
pub open spec fn is_digit(b: u8) -> bool {
    48 <= b <= 57
}

/// `s[from..to]` has the form `HTTP/d.d`.
pub open spec fn is_http_version(s: Seq<u8>, from: int, to: int) -> bool {
    &&& to - from == 8
    // HTTP/
    &&& s.subrange(from, from + 5) == seq![72u8, 84, 84, 80, 47]
    &&& is_digit(s[from + 5])
    // .
    &&& s[from + 6] == 46
    &&& is_digit(s[from + 7])
}

/// The headers of `c` from position `p` on, appended to `acc`, and the position
/// just after the blank line that ends them.
pub open spec fn parse_headers(c: Seq<u8>, p: int, acc: Seq<(Seq<u8>, Seq<u8>)>) -> Result<
    (Seq<(Seq<u8>, Seq<u8>)>, int),
    (ParseErrorKind, Seq<u8>),
>
    decreases c.len() - p,
{
    if p < 0 {
        Ok((acc, p))
    } else {
        let q = find_crlf(c, p);
        if q < 0 {
            Err((ParseErrorKind::IncompleteData, c.subrange(p, c.len() as int)))
        } else if q == p {
            Ok((acc, p + 2))
        } else {
            let k = find_byte(c, 58, p, q);
            if k <= p {
                Err((ParseErrorKind::InvalidHeader, c.subrange(p, q)))
            } else {
                let vs = skip_ows(c, k + 1, q);
                let ve = back_ows(c, vs, q);
                proof {
                    lemma_find_crlf(c, p);
                }
                parse_headers(c, q + 2, acc.push((c.subrange(p, k), c.subrange(vs, ve))))
            }
        }
    }
}

/// The method, path and version of the request line `c[0..e]`.
pub open spec fn parse_request_line(c: Seq<u8>, e: int) -> Result<
    (Method, Seq<char>, Seq<char>),
    (ParseErrorKind, Seq<u8>),
> {
    let s1 = find_byte(c, SP, 0, e);
    let s2 = find_byte(c, SP, s1 + 1, e);
    if s1 < 0 {
        Err((ParseErrorKind::InvalidRequestLine, c.subrange(0, e)))
    } else if method_of(c.subrange(0, s1)) is None {
        Err((ParseErrorKind::InvalidMethod, c.subrange(0, s1)))
    } else if s2 < 0 || !is_token(c, s1 + 1, s2) || !is_token(c, s2 + 1, e) {
        Err((ParseErrorKind::InvalidRequestLine, c.subrange(0, e)))
    } else if !is_http_version(c, s2 + 1, e) {
        Err((ParseErrorKind::InvalidProtocol, c.subrange(s2 + 1, e)))
    } else if !valid_utf8(c.subrange(s1 + 1, s2)) {
        Err((ParseErrorKind::EncodingError, c.subrange(s1 + 1, s2)))
    } else {
        Ok(
            (
                method_of(c.subrange(0, s1))->Some_0,
                decode_utf8(c.subrange(s1 + 1, s2)),
                decode_utf8(c.subrange(s2 + 1, e)),
            ),
        )
    }
}

/// The body that follows the header block ending at `b`: none when no byte follows.
pub open spec fn body_from(c: Seq<u8>, b: int) -> Option<Seq<u8>> {
    if b < c.len() {
        Some(c.subrange(b, c.len() as int))
    } else {
        None
    }
}

/// A request held in `c`, a buffer without padding.
pub open spec fn parse_content(c: Seq<u8>) -> Result<RequestModel, (ParseErrorKind, Seq<u8>)> {
    let e = find_crlf(c, 0);
    if e < 0 {
        Err((ParseErrorKind::IncompleteData, c))
    } else {
        match parse_request_line(c, e) {
            Err(x) => Err(x),
            Ok((method, path, version)) => match parse_headers(c, e + 2, seq![]) {
                Err(x) => Err(x),
                Ok((headers, b)) => Ok(
                    RequestModel { method, path, version, headers, body: body_from(c, b) },
                ),
            },
        }
    }
}

/// What parsing a buffer yields: padding after the first NUL byte is ignored.
pub open spec fn parse_spec(buf: Seq<u8>) -> Result<RequestModel, (ParseErrorKind, Seq<u8>)> {
    parse_content(content(buf))
}

/// Relies on `String::from_utf8`: it succeeds exactly on valid UTF-8 and
/// then holds the characters that the bytes encode.
#[verifier::external_body]
fn utf8_string(bytes: Vec<u8>) -> (r: Option<String>)
    ensures
        r is Some <==> valid_utf8(bytes@),
        r matches Some(s) ==> s@ == decode_utf8(bytes@),
{
    String::from_utf8(bytes).ok()
}

/// A sequence of ASCII bytes is valid UTF-8.
pub proof fn lemma_ascii_valid_utf8(s: Seq<u8>)
    requires
        forall|i: int| 0 <= i < s.len() ==> #[trigger] s[i] < 128,
    ensures
        valid_utf8(s),
    decreases s.len(),
{
    if s.len() > 0 {
        let b = s[0];
        assert((b & 0x7f) <= 0x7f) by (bit_vector);
        let rest = s.subrange(1, s.len() as int);
        assert forall|i: int| 0 <= i < rest.len() implies #[trigger] rest[i] < 128 by {
            assert(rest[i] == s[i + 1]);
        }
        lemma_ascii_valid_utf8(rest);
    }
}

/// True when `buf[from..to]` is non-empty and holds no space or tab.
fn is_token_in(buf: &[u8], from: usize, to: usize) -> (r: bool)
    requires
        from <= to <= buf@.len(),
    ensures
        r == is_token(buf@, from as int, to as int),
{
    if from == to {
        return false;
    }
    let mut i = from;
    while i < to
        invariant
            from <= i <= to <= buf@.len(),
            forall|j: int| from <= j < i ==> !is_ows(#[trigger] buf@[j]),
        decreases to - i,
    {
        if buf[i] == SP || buf[i] == HTAB {
            return false;
        }
        i = i + 1;
    }
    true
}

/// True when `buf[from..to]` has the form `HTTP/d.d`.
fn is_http_version_in(buf: &[u8], from: usize, to: usize) -> (r: bool)
    requires
        from <= to <= buf@.len(),
    ensures
        r == is_http_version(buf@, from as int, to as int),
{
    if to - from != 8 {
        return false;
    }
    let prefix: Vec<u8> = vec![72u8, 84, 84, 80, 47];
    slice_is(buf, from, from + 5, prefix.as_slice()) && 48 <= buf[from + 5] && buf[from + 5] <= 57
        && buf[from + 6] == 46 && 48 <= buf[from + 7] && buf[from + 7] <= 57
}

/// The headers of `c` from `start` on, and the position just after the blank
/// line that ends them.
fn parse_headers_in(c: &[u8], start: usize) -> (r: Result<(Vec<Header>, usize), ParseError>)
    requires
        start <= c@.len(),
    ensures
        match r {
            Ok((hs, b)) => parse_headers(c@, start as int, seq![]) == Ok::<
                (Seq<(Seq<u8>, Seq<u8>)>, int),
                (ParseErrorKind, Seq<u8>),
            >((headers_view(hs@), b as int)),
            Err(e) => parse_headers(c@, start as int, seq![]) == Err::<
                (Seq<(Seq<u8>, Seq<u8>)>, int),
                (ParseErrorKind, Seq<u8>),
            >(e@),
        },
{
    let len = c.len();
    let mut hs: Vec<Header> = Vec::new();
    let mut p = start;
    assert(headers_view(hs@) =~= seq![]);
    loop
        invariant
            len == c@.len(),
            p <= c@.len(),
            parse_headers(c@, start as int, seq![]) == parse_headers(
                c@,
                p as int,
                headers_view(hs@),
            ),
        decreases c@.len() - p,
    {
        proof {
            lemma_find_crlf(c@, p as int);
        }
        let q = match find_crlf_in(c, p) {
            None => {
                let rest = slice_to_vec(slice_subrange(c, p, c.len()));
                return Err(ParseError { kind: ParseErrorKind::IncompleteData, context: rest });
            },
            Some(q) => q,
        };
        if q == p {
            return Ok((hs, p + 2));
        }
        proof {
            lemma_find_byte(c@, 58, p as int, q as int);
        }
        let k = find_byte_in(c, 58, p, q);
        let k = match k {
            Some(k) if k > p => k,
            _ => {
                let line = slice_to_vec(slice_subrange(c, p, q));
                return Err(ParseError { kind: ParseErrorKind::InvalidHeader, context: line });
            },
        };
        let vs = skip_ows_in(c, k + 1, q);
        proof {
            lemma_skip_ows(c@, k + 1, q as int);
        }
        let ve = back_ows_in(c, vs, q);
        proof {
            lemma_back_ows(c@, vs as int, q as int);
        }
        let name = slice_to_vec(slice_subrange(c, p, k));
        let value = slice_to_vec(slice_subrange(c, vs, ve));
        let h = Header { name, value };
        let ghost old_hs = hs@;
        hs.push(h);
        assert(headers_view(hs@) =~= headers_view(old_hs).push(h@));
        p = q + 2;
    }
}

/// The method, path and version of the request line `c[0..e]`.
fn parse_request_line_in(c: &[u8], e: usize) -> (r: Result<(Method, String, String), ParseError>)
    requires
        e <= c@.len(),
    ensures
        match r {
            Ok((m, p, v)) => parse_request_line(c@, e as int) == Ok::<
                (Method, Seq<char>, Seq<char>),
                (ParseErrorKind, Seq<u8>),
            >((m, p@, v@)),
            Err(x) => parse_request_line(c@, e as int) == Err::<
                (Method, Seq<char>, Seq<char>),
                (ParseErrorKind, Seq<u8>),
            >(x@),
        },
{
    proof {
        lemma_find_byte(c@, SP, 0, e as int);
    }
    let s1 = match find_byte_in(c, SP, 0, e) {
        None => {
            let line = slice_to_vec(slice_subrange(c, 0, e));
            return Err(ParseError { kind: ParseErrorKind::InvalidRequestLine, context: line });
        },
        Some(s1) => s1,
    };
    let method = match Method::from_token(c, 0, s1) {
        None => {
            let tok = slice_to_vec(slice_subrange(c, 0, s1));
            return Err(ParseError { kind: ParseErrorKind::InvalidMethod, context: tok });
        },
        Some(m) => m,
    };
    proof {
        lemma_find_byte(c@, SP, s1 + 1, e as int);
    }
    let s2 = match find_byte_in(c, SP, s1 + 1, e) {
        None => {
            let line = slice_to_vec(slice_subrange(c, 0, e));
            return Err(ParseError { kind: ParseErrorKind::InvalidRequestLine, context: line });
        },
        Some(s2) => s2,
    };
    if !is_token_in(c, s1 + 1, s2) || !is_token_in(c, s2 + 1, e) {
        let line = slice_to_vec(slice_subrange(c, 0, e));
        return Err(ParseError { kind: ParseErrorKind::InvalidRequestLine, context: line });
    }
    if !is_http_version_in(c, s2 + 1, e) {
        let tok = slice_to_vec(slice_subrange(c, s2 + 1, e));
        return Err(ParseError { kind: ParseErrorKind::InvalidProtocol, context: tok });
    }
    let path_bytes = slice_to_vec(slice_subrange(c, s1 + 1, s2));
    let path = match utf8_string(path_bytes) {
        None => {
            let tok = slice_to_vec(slice_subrange(c, s1 + 1, s2));
            return Err(ParseError { kind: ParseErrorKind::EncodingError, context: tok });
        },
        Some(s) => s,
    };
    let version_bytes = slice_to_vec(slice_subrange(c, s2 + 1, e));
    proof {
        let v = version_bytes@;
        assert forall|i: int| 0 <= i < v.len() implies #[trigger] v[i] < 128 by {
            if i < 5 {
                assert(v[i] == c@.subrange(s2 + 1, s2 + 6)[i]);
            }
        }
        lemma_ascii_valid_utf8(v);
    }
    let version = match utf8_string(version_bytes) {
        // Never taken: a version of the form `HTTP/d.d` is ASCII.
        None => {
            return Err(ParseError { kind: ParseErrorKind::EncodingError, context: Vec::new() });
        },
        Some(s) => s,
    };
    Ok((method, path, version))
}

/// Parses a request from a buffer, ignoring any padding that starts at the
/// first NUL byte.
pub fn parse(buf: &[u8]) -> (r: Result<Request, ParseError>)
    ensures
        parse_result_view(r) == parse_spec(buf@),
{
    proof {
        lemma_find_byte(buf@, 0, 0, buf@.len() as int);
    }
    let n = match find_byte_in(buf, 0, 0, buf.len()) {
        Some(n) => n,
        None => buf.len(),
    };
    let c = slice_subrange(buf, 0, n);
    assert(c@ == content(buf@)) by {
        if find_byte(buf@, 0, 0, buf@.len() as int) < 0 {
            assert(c@ =~= buf@);
        }
    }
    proof {
        lemma_find_crlf(c@, 0);
    }
    let e = match find_crlf_in(c, 0) {
        None => {
            return Err(ParseError { kind: ParseErrorKind::IncompleteData, context: slice_to_vec(c) });
        },
        Some(e) => e,
    };
    let (method, path, version) = match parse_request_line_in(c, e) {
        Err(x) => {
            return Err(x);
        },
        Ok(line) => line,
    };
    let (headers, b) = match parse_headers_in(c, e + 2) {
        Err(x) => {
            return Err(x);
        },
        Ok(hb) => hb,
    };
    let body = if b < c.len() {
        Some(slice_to_vec(slice_subrange(c, b, c.len())))
    } else {
        None
    };
    let r = Request { method, path, version, headers, body };
    assert(body_view(body) == body_from(c@, b as int));
    Ok(r)
}

/// A byte with ASCII upper-case letters mapped to lower case.
pub open spec fn ascii_lower(b: u8) -> u8 {
    if 65 <= b <= 90 {
        (b + 32) as u8
    } else {
        b
    }
}

/// Two header names that are equal up to ASCII case.
pub open spec fn same_name(a: Seq<u8>, b: Seq<u8>) -> bool {
    a.len() == b.len() && forall|i: int| 0 <= i < a.len() ==> ascii_lower(a[i]) == ascii_lower(b[i])
}

/// The position of the first header at or after `from` whose name is `name` up
/// to case, or -1.
pub open spec fn find_header(hs: Seq<(Seq<u8>, Seq<u8>)>, name: Seq<u8>, from: int) -> int
    decreases hs.len() - from,
{
    if from < 0 || from >= hs.len() {
        -1
    } else if same_name(hs[from].0, name) {
        from
    } else {
        find_header(hs, name, from + 1)
    }
}

/// The value of the first header named `name`, compared without regard to case.
pub open spec fn header_lookup(hs: Seq<(Seq<u8>, Seq<u8>)>, name: Seq<u8>) -> Option<Seq<u8>> {
    let i = find_header(hs, name, 0);
    if i < 0 {
        None
    } else {
        Some(hs[i].1)
    }
}

/// True when `a` and `b` are equal up to ASCII case.
fn same_name_exec(a: &[u8], b: &[u8]) -> (r: bool)
    ensures
        r == same_name(a@, b@),
{
    if a.len() != b.len() {
        return false;
    }
    let mut i: usize = 0;
    while i < a.len()
        invariant
            a@.len() == b@.len(),
            i <= a@.len(),
            forall|j: int| 0 <= j < i ==> ascii_lower(a@[j]) == ascii_lower(b@[j]),
        decreases a@.len() - i,
    {
        let x = if 65 <= a[i] && a[i] <= 90 { a[i] + 32 } else { a[i] };
        let y = if 65 <= b[i] && b[i] <= 90 { b[i] + 32 } else { b[i] };
        if x != y {
            return false;
        }
        i = i + 1;
    }
    true
}

impl Request {
    /// The request's method.
    pub fn method(&self) -> (r: Method)
        ensures
            r == self@.method,
    {
        self.method
    }

    /// The request's path, as sent.
    pub fn path(&self) -> (r: &String)
        ensures
            r@ == self@.path,
    {
        &self.path
    }

    /// The request's version token.
    pub fn version(&self) -> (r: &String)
        ensures
            r@ == self@.version,
    {
        &self.version
    }

    /// The request's headers, in the order they were sent.
    pub fn headers(&self) -> (r: &Vec<Header>)
        ensures
            headers_view(r@) == self@.headers,
    {
        &self.headers
    }

    /// The request's body, if any byte followed the header block.
    pub fn body(&self) -> (r: &Option<Vec<u8>>)
        ensures
            body_view(*r) == self@.body,
    {
        &self.body
    }

    /// The value of the first header named `name`, compared without regard to
    /// ASCII case.
    pub fn header(&self, name: &[u8]) -> (r: Option<&Vec<u8>>)
        ensures
            match r {
                Some(v) => header_lookup(self@.headers, name@) == Some(v@),
                None => header_lookup(self@.headers, name@) is None,
            },
    {
        let ghost hs = self@.headers;
        let mut i: usize = 0;
        while i < self.headers.len()
            invariant
                hs == headers_view(self.headers@),
                i <= self.headers@.len(),
                find_header(hs, name@, 0) == find_header(hs, name@, i as int),
            decreases self.headers@.len() - i,
        {
            if same_name_exec(self.headers[i].name.as_slice(), name) {
                return Some(&self.headers[i].value);
            }
            i = i + 1;
        }
        None
    }
}

} // verus!
