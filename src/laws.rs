use vstd::prelude::*;

use vstd::utf8::{decode_utf8, valid_utf8};

use crate::bytes::{
    back_ows, find_byte, find_crlf, lemma_back_ows, lemma_back_ows_shift, lemma_find_byte,
    lemma_find_byte_first, lemma_find_byte_none, lemma_find_crlf_first, lemma_skip_ows,
    lemma_skip_ows_shift, skip_ows, CR, LF, SP,
};
use crate::method::{method_of, method_token, Method};
use crate::request::{
    content, find_header, header_lookup, is_http_version, is_token, parse_headers,
    parse_request_line, parse_spec, same_name, ParseErrorKind, RequestModel,
};
use crate::response::{
    content_length_prefix, crlf, decimal, digits_value, serialize_spec, status_line,
    ResponseModel, StatusCode,
};

verus! {

/// `k` NUL bytes, the padding left by a fixed-size read buffer.
pub open spec fn nul_padding(k: nat) -> Seq<u8> {
    Seq::new(k, |i: int| 0u8)
}

/// No byte of `s` is `x`.
pub open spec fn lacks(s: Seq<u8>, x: u8) -> bool {
    forall|i: int| 0 <= i < s.len() ==> s[i] != x
}

/// Every method token is made of upper-case ASCII letters, and names its method.
pub proof fn lemma_method_token(m: Method)
    ensures
        method_of(method_token(m)) == Some(m),
        forall|i: int|
            0 <= i < method_token(m).len() ==> 65 <= #[trigger] method_token(m)[i] <= 90,
{
    let t = method_token(m);
    assert(method_token(Method::Get)[0] == 71);
    assert(method_token(Method::Post)[1] == 79);
    assert(method_token(Method::Put)[1] == 85);
    assert(method_token(Method::Patch)[1] == 65);
    assert(method_token(Method::Connect)[0] == 67);
    assert(method_token(Method::Options)[0] == 79);
}

/// NUL padding after a buffer without NUL bytes does not change what it parses to.
pub proof fn lemma_padding_ignored(buf: Seq<u8>, k: nat)
    requires
        lacks(buf, 0),
    ensures
        parse_spec(buf + nul_padding(k)) == parse_spec(buf),
{
    let padded = buf + nul_padding(k);
    lemma_find_byte_none(buf, 0, 0, buf.len() as int);
    assert(content(buf) == buf);
    if k == 0 {
        assert(padded =~= buf);
    } else {
        lemma_find_byte_first(padded, 0, 0, padded.len() as int, buf.len() as int);
        assert(padded.subrange(0, buf.len() as int) =~= buf);
    }
    assert(content(padded) == buf);
}

/// The request line `METHOD PATH VERSION`, without its line end.
pub open spec fn request_line_bytes(m: Method, path: Seq<u8>, version: Seq<u8>) -> Seq<u8> {
    method_token(m) + seq![SP] + path + seq![SP] + version
}

/// A path that a request line can carry: a non-empty UTF-8 token without
/// spaces, tabs, CR or NUL.
pub open spec fn valid_path(path: Seq<u8>) -> bool {
    &&& is_token(path, 0, path.len() as int)
    &&& lacks(path, CR)
    &&& lacks(path, 0)
    &&& valid_utf8(path)
}

/// A version token of the form `HTTP/d.d`.
pub open spec fn valid_version(version: Seq<u8>) -> bool {
    is_http_version(version, 0, version.len() as int)
}

/// A well-formed request line holds no CR and no NUL byte.
pub proof fn lemma_request_line_bytes(m: Method, path: Seq<u8>, version: Seq<u8>)
    requires
        valid_path(path),
        valid_version(version),
    ensures
        lacks(request_line_bytes(m, path, version), CR),
        lacks(request_line_bytes(m, path, version), 0),
{
    let t = method_token(m);
    let l = request_line_bytes(m, path, version);
    lemma_method_token(m);
    let a = t.len() as int;
    let s2 = a + 1 + path.len();
    assert forall|i: int| 0 <= i < l.len() implies l[i] != CR && l[i] != 0 by {
        if i < a {
            assert(l[i] == t[i]);
            assert(65 <= t[i] <= 90);
        } else if a < i < s2 {
            assert(l[i] == path[i - a - 1]);
        } else if s2 < i {
            assert(l[i] == version[i - s2 - 1]);
            if i - s2 - 1 < 5 {
                assert(version[i - s2 - 1] == version.subrange(0, 5)[i - s2 - 1]);
            }
        }
    }
}

/// A buffer that starts with a well-formed request line and its CR LF
/// yields that line's method, path and version.
pub proof fn lemma_request_line(c: Seq<u8>, m: Method, path: Seq<u8>, version: Seq<u8>)
    requires
        valid_path(path),
        valid_version(version),
        c.len() >= request_line_bytes(m, path, version).len() + 2,
        forall|i: int|
            0 <= i < request_line_bytes(m, path, version).len() ==> c[i] == request_line_bytes(
                m,
                path,
                version,
            )[i],
        c[request_line_bytes(m, path, version).len() as int] == CR,
        c[request_line_bytes(m, path, version).len() as int + 1] == LF,
    ensures
        find_crlf(c, 0) == request_line_bytes(m, path, version).len(),
        parse_request_line(c, request_line_bytes(m, path, version).len() as int) == Ok::<
            (Method, Seq<char>, Seq<char>),
            (ParseErrorKind, Seq<u8>),
        >((m, decode_utf8(path), decode_utf8(version))),
{
    let t = method_token(m);
    let l = request_line_bytes(m, path, version);
    lemma_method_token(m);
    let a = t.len() as int;
    let s2 = a + 1 + path.len();
    let e = l.len() as int;
    assert(e == s2 + 9);
    assert forall|i: int| 0 <= i < a implies c[i] == t[i] by {
        assert(l[i] == t[i]);
    }
    assert(c[a] == SP) by {
        assert(l[a] == SP);
    }
    assert forall|i: int| 0 <= i < path.len() implies c[a + 1 + i] == path[i] by {
        assert(l[a + 1 + i] == path[i]);
    }
    assert(c[s2] == SP) by {
        assert(l[s2] == SP);
    }
    assert forall|i: int| 0 <= i < 8 implies c[s2 + 1 + i] == version[i] by {
        assert(l[s2 + 1 + i] == version[i]);
    }
    lemma_request_line_bytes(m, path, version);
    assert forall|i: int| 0 <= i < e implies c[i] != CR by {
        assert(c[i] == l[i]);
    }
    lemma_find_crlf_first(c, 0, e);
    assert forall|i: int| 0 <= i < a implies c[i] != SP by {
        assert(65 <= t[i] <= 90);
    }
    lemma_find_byte_first(c, SP, 0, e, a);
    assert(c.subrange(0, a) =~= t);
    assert forall|i: int| a + 1 <= i < s2 implies c[i] != SP by {
        assert(c[i] == path[i - a - 1]);
    }
    lemma_find_byte_first(c, SP, a + 1, e, s2);
    assert(c.subrange(a + 1, s2) =~= path);
    assert(c.subrange(s2 + 1, e) =~= version);
    assert(c.subrange(s2 + 1, s2 + 6) =~= version.subrange(0, 5));
    assert forall|i: int| s2 + 1 <= i < e implies !crate::bytes::is_ows(#[trigger] c[i]) by {
        assert(c[i] == version[i - s2 - 1]);
        if i - s2 - 1 < 5 {
            assert(version[i - s2 - 1] == version.subrange(0, 5)[i - s2 - 1]);
        }
    }
    assert forall|i: int| a + 1 <= i < s2 implies !crate::bytes::is_ows(#[trigger] c[i]) by {
        assert(c[i] == path[i - a - 1]);
    }
}

/// A request line followed by a blank line parses to exactly that method,
/// path and version, with no headers and no body.
pub proof fn lemma_bare_request(m: Method, path: Seq<u8>, version: Seq<u8>)
    requires
        valid_path(path),
        valid_version(version),
    ensures
        parse_spec(request_line_bytes(m, path, version) + crlf() + crlf()) == Ok::<
            RequestModel,
            (ParseErrorKind, Seq<u8>),
        >(
            RequestModel {
                method: m,
                path: decode_utf8(path),
                version: decode_utf8(version),
                headers: seq![],
                body: None,
            },
        ),
{
    let l = request_line_bytes(m, path, version);
    let buf = l + crlf() + crlf();
    let e = l.len() as int;
    lemma_request_line_bytes(m, path, version);
    assert forall|i: int| 0 <= i < buf.len() implies buf[i] != 0 by {
        if i < e {
            assert(buf[i] == l[i]);
        }
    }
    lemma_find_byte_none(buf, 0, 0, buf.len() as int);
    assert(content(buf) == buf);
    assert forall|i: int| 0 <= i < e implies buf[i] == l[i] by {}
    lemma_request_line(buf, m, path, version);
    lemma_find_crlf_first(buf, e + 2, e + 2);
    assert(parse_headers(buf, e + 2, seq![]) == Ok::<
        (Seq<(Seq<u8>, Seq<u8>)>, int),
        (ParseErrorKind, Seq<u8>),
    >((seq![], e + 4)));
}

/// A first line whose method token is not recognized is rejected as an
/// invalid method, whatever follows it.
pub proof fn lemma_unknown_method(tok: Seq<u8>, rest: Seq<u8>, tail: Seq<u8>)
    requires
        method_of(tok) is None,
        lacks(tok, SP),
        lacks(tok, CR),
        lacks(tok, 0),
        lacks(rest, CR),
        lacks(rest, 0),
    ensures
        parse_spec(tok + seq![SP] + rest + crlf() + tail) == Err::<
            RequestModel,
            (ParseErrorKind, Seq<u8>),
        >((ParseErrorKind::InvalidMethod, tok)),
{
    let line = tok + seq![SP] + rest;
    let buf = line + crlf() + tail;
    let e = line.len() as int;
    let a = tok.len() as int;
    assert forall|i: int| 0 <= i < e implies buf[i] == line[i] && line[i] != CR && line[i] != 0 by {
        if i < a {
            assert(line[i] == tok[i]);
        } else if i > a {
            assert(line[i] == rest[i - a - 1]);
        }
    }
    lemma_find_byte(buf, 0, 0, buf.len() as int);
    let f = find_byte(buf, 0, 0, buf.len() as int);
    let c = content(buf);
    assert(c.len() >= e + 2);
    assert forall|i: int| 0 <= i < e + 2 implies c[i] == buf[i] by {}
    lemma_find_crlf_first(c, 0, e);
    assert forall|i: int| 0 <= i < a implies c[i] != SP by {
        assert(c[i] == tok[i]);
    }
    lemma_find_byte_first(c, SP, 0, e, a);
    assert(c.subrange(0, a) =~= tok);
}

/// A header value with the spaces and tabs around it removed.
pub open spec fn trim_ows(v: Seq<u8>) -> Seq<u8> {
    let start = skip_ows(v, 0, v.len() as int);
    v.subrange(start, back_ows(v, start, v.len() as int))
}

/// A request with one header line `Name: Value` holds that header, its value
/// trimmed of surrounding whitespace, and a lookup by any spelling of the name
/// that differs only in case finds that value.
pub proof fn lemma_single_header(
    m: Method,
    path: Seq<u8>,
    version: Seq<u8>,
    name: Seq<u8>,
    value: Seq<u8>,
    query: Seq<u8>,
)
    requires
        valid_path(path),
        valid_version(version),
        name.len() > 0,
        lacks(name, 58),
        lacks(name, CR),
        lacks(name, 0),
        lacks(value, CR),
        lacks(value, 0),
        same_name(name, query),
    ensures
        parse_spec(
            request_line_bytes(m, path, version) + crlf() + name + seq![58u8] + value + crlf()
                + crlf(),
        ) == Ok::<RequestModel, (ParseErrorKind, Seq<u8>)>(
            RequestModel {
                method: m,
                path: decode_utf8(path),
                version: decode_utf8(version),
                headers: seq![(name, trim_ows(value))],
                body: None,
            },
        ),
        header_lookup(seq![(name, trim_ows(value))], query) == Some(trim_ows(value)),
{
    let l = request_line_bytes(m, path, version);
    let buf = l + crlf() + name + seq![58u8] + value + crlf() + crlf();
    let e = l.len() as int;
    let p = e + 2;
    let k = p + name.len();
    let q = k + 1 + value.len();
    assert(buf.len() == q + 4);
    lemma_request_line_bytes(m, path, version);
    assert forall|i: int| 0 <= i < e implies buf[i] == l[i] by {}
    assert forall|i: int| 0 <= i < name.len() implies buf[p + i] == name[i] by {}
    assert forall|i: int| 0 <= i < value.len() implies buf[k + 1 + i] == value[i] by {}
    assert forall|i: int| 0 <= i < buf.len() implies buf[i] != 0 by {
        if i < e {
            assert(buf[i] == l[i]);
        } else if p <= i < k {
            assert(buf[i] == name[i - p]);
        } else if k < i < q {
            assert(buf[i] == value[i - k - 1]);
        }
    }
    lemma_find_byte_none(buf, 0, 0, buf.len() as int);
    assert(content(buf) == buf);
    lemma_request_line(buf, m, path, version);
    assert forall|i: int| p <= i < q implies buf[i] != CR by {
        if i < k {
            assert(buf[i] == name[i - p]);
        } else if k < i {
            assert(buf[i] == value[i - k - 1]);
        }
    }
    lemma_find_crlf_first(buf, p, q);
    assert forall|i: int| p <= i < k implies buf[i] != 58 by {
        assert(buf[i] == name[i - p]);
    }
    lemma_find_byte_first(buf, 58, p, q, k);
    let sv = skip_ows(value, 0, value.len() as int);
    lemma_skip_ows(value, 0, value.len() as int);
    lemma_skip_ows_shift(buf, value, k + 1, 0, value.len() as int);
    let bv = back_ows(value, sv, value.len() as int);
    lemma_back_ows(value, sv, value.len() as int);
    lemma_back_ows_shift(buf, value, k + 1, sv, value.len() as int);
    assert(buf.subrange(p, k) =~= name);
    assert(buf.subrange(k + 1 + sv, k + 1 + bv) =~= value.subrange(sv, bv));
    let h = (name, trim_ows(value));
    lemma_find_crlf_first(buf, q + 2, q + 2);
    assert(parse_headers(buf, q + 2, seq![h]) == Ok::<
        (Seq<(Seq<u8>, Seq<u8>)>, int),
        (ParseErrorKind, Seq<u8>),
    >((seq![h], q + 4)));
    assert(seq![].push(h) =~= seq![h]);
    assert(parse_headers(buf, p, seq![]) == Ok::<
        (Seq<(Seq<u8>, Seq<u8>)>, int),
        (ParseErrorKind, Seq<u8>),
    >((seq![h], q + 4)));
    assert(find_header(seq![h], query, 0) == 0);
}

/// The decimal digits of a number are ASCII digits and read back as that number.
pub proof fn lemma_decimal(n: nat)
    ensures
        decimal(n).len() >= 1,
        forall|i: int| 0 <= i < decimal(n).len() ==> 48 <= #[trigger] decimal(n)[i] <= 57,
        digits_value(decimal(n)) == n,
    decreases n,
{
    if n >= 10 {
        lemma_decimal(n / 10);
        assert(decimal(n).drop_last() =~= decimal(n / 10));
        assert(decimal(n).last() == (48 + n % 10) as u8);
        assert(n == (n / 10) * 10 + n % 10);
        assert(digits_value(decimal(n)) == digits_value(decimal(n / 10)) * 10 + n % 10);
    } else {
        assert(decimal(n).drop_last() =~= Seq::<u8>::empty());
        assert(digits_value(Seq::<u8>::empty()) == 0);
        assert(digits_value(decimal(n)) == n);
    }
}

/// The first position at or after `from` where `s` holds a blank line end,
/// CR LF CR LF, or -1.
pub open spec fn find_blank_line(s: Seq<u8>, from: int) -> int
    decreases s.len() - from,
{
    if from + 3 >= s.len() {
        -1
    } else if s[from] == CR && s[from + 1] == LF && s[from + 2] == CR && s[from + 3] == LF {
        from
    } else {
        find_blank_line(s, from + 1)
    }
}

proof fn lemma_find_blank_line_first(s: Seq<u8>, from: int, j: int)
    requires
        0 <= from <= j,
        j + 3 < s.len(),
        s[j] == CR && s[j + 1] == LF && s[j + 2] == CR && s[j + 3] == LF,
        forall|i: int|
            from <= i < j ==> !(#[trigger] s[i] == CR && s[i + 1] == LF && s[i + 2] == CR && s[i + 3] == LF),
    ensures
        find_blank_line(s, from) == j,
    decreases j - from,
{
    if from < j {
        lemma_find_blank_line_first(s, from + 1, j);
    }
}

/// A `200 OK` response with a body carries a Content-Length line whose digits
/// read back as the body's length, and the bytes after the first blank line
/// are the body itself.
pub proof fn lemma_body_round_trip(b: Seq<u8>)
    ensures
        ({
            let out = serialize_spec(ResponseModel { status: StatusCode::Success, body: Some(b) });
            let h = find_blank_line(out, 0) + 4;
            &&& find_blank_line(out, 0) >= 0
            &&& out.subrange(h, out.len() as int) == b
            &&& out.subrange(0, h) == status_line(StatusCode::Success) + content_length_prefix()
                + decimal(b.len()) + crlf() + crlf()
            &&& digits_value(decimal(b.len())) == b.len()
        }),
{
    let out = serialize_spec(ResponseModel { status: StatusCode::Success, body: Some(b) });
    reveal_with_fuel(decimal, 3);
    let sl = status_line(StatusCode::Success);
    assert(sl =~= seq![72u8, 84, 84, 80, 47, 49, 46, 49, 32, 50, 48, 48, 32, 79, 75, CR, LF]);
    let d = decimal(b.len());
    lemma_decimal(b.len());
    let cl = content_length_prefix();
    let j = (sl.len() + cl.len() + d.len()) as int;
    assert(out =~= sl + cl + d + crlf() + crlf() + b);
    assert forall|i: int| 0 <= i < j implies !(#[trigger] out[i] == CR && out[i + 1] == LF && out[i + 2]
        == CR && out[i + 3] == LF) by {
        if i < 15 {
            assert(out[i] == sl[i]);
        } else if i == 15 {
            assert(out[i + 2] == cl[0]);
        } else if i == 16 {
            assert(out[i] == sl[i]);
        } else if i < 17 + cl.len() {
            assert(out[i] == cl[i - 17]);
        } else {
            assert(out[i] == d[i - 17 - cl.len()]);
        }
    }
    lemma_find_blank_line_first(out, 0, j);
    assert(out.subrange(j + 4, out.len() as int) =~= b);
    assert(out.subrange(0, j + 4) =~= sl + cl + d + crlf() + crlf());
}

/// Serializing depends on the response alone: equal responses give
/// byte-identical output.
pub proof fn lemma_serialize_deterministic(a: ResponseModel, b: ResponseModel)
    requires
        a == b,
    ensures
        serialize_spec(a) == serialize_spec(b),
{
}

/// A response without a body is its status line and a blank line, with no
/// Content-Length.
pub proof fn lemma_no_body(status: StatusCode)
    ensures
        serialize_spec(ResponseModel { status, body: None }) == status_line(status) + crlf(),
{
}

} // verus!
