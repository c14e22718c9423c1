use vstd::prelude::*;

use crate::bytes::slice_is;

verus! {

/// The request methods this library recognizes.
#[derive(Clone, Copy, Debug, PartialEq, Eq, Structural)]
pub enum Method {
    Get,
    Post,
    Put,
    Delete,
    Head,
    Connect,
    Options,
    Trace,
    Patch,
}

/// The ASCII token that names a method on the wire.
pub open spec fn method_token(m: Method) -> Seq<u8> {
    match m {
        // GET
        Method::Get => seq![71u8, 69, 84],
        // POST
        Method::Post => seq![80u8, 79, 83, 84],
        // PUT
        Method::Put => seq![80u8, 85, 84],
        // DELETE
        Method::Delete => seq![68u8, 69, 76, 69, 84, 69],
        // HEAD
        Method::Head => seq![72u8, 69, 65, 68],
        // CONNECT
        Method::Connect => seq![67u8, 79, 78, 78, 69, 67, 84],
        // OPTIONS
        Method::Options => seq![79u8, 80, 84, 73, 79, 78, 83],
        // TRACE
        Method::Trace => seq![84u8, 82, 65, 67, 69],
        // PATCH
        Method::Patch => seq![80u8, 65, 84, 67, 72],
    }
}

/// The method named by a token, matched case-sensitively; `None` when the
/// token names no recognized method.
pub open spec fn method_of(tok: Seq<u8>) -> Option<Method> {
    if tok == method_token(Method::Get) {
        Some(Method::Get)
    } else if tok == method_token(Method::Post) {
        Some(Method::Post)
    } else if tok == method_token(Method::Put) {
        Some(Method::Put)
    } else if tok == method_token(Method::Delete) {
        Some(Method::Delete)
    } else if tok == method_token(Method::Head) {
        Some(Method::Head)
    } else if tok == method_token(Method::Connect) {
        Some(Method::Connect)
    } else if tok == method_token(Method::Options) {
        Some(Method::Options)
    } else if tok == method_token(Method::Trace) {
        Some(Method::Trace)
    } else if tok == method_token(Method::Patch) {
        Some(Method::Patch)
    } else {
        None
    }
}

impl Method {
    /// The bytes of the token that names this method.
    pub fn token(&self) -> (r: Vec<u8>)
        ensures
            r@ == method_token(*self),
    {
        match self {
            Method::Get => vec![71u8, 69, 84],
            Method::Post => vec![80u8, 79, 83, 84],
            Method::Put => vec![80u8, 85, 84],
            Method::Delete => vec![68u8, 69, 76, 69, 84, 69],
            Method::Head => vec![72u8, 69, 65, 68],
            Method::Connect => vec![67u8, 79, 78, 78, 69, 67, 84],
            Method::Options => vec![79u8, 80, 84, 73, 79, 78, 83],
            Method::Trace => vec![84u8, 82, 65, 67, 69],
            Method::Patch => vec![80u8, 65, 84, 67, 72],
        }
    }

    /// The method named by `buf[start..end]`, if any.
    pub fn from_token(buf: &[u8], start: usize, end: usize) -> (r: Option<Method>)
        requires
            start <= end <= buf@.len(),
        ensures
            r == method_of(buf@.subrange(start as int, end as int)),
    {
        if slice_is(buf, start, end, Method::Get.token().as_slice()) {
            return Some(Method::Get);
        }
        if slice_is(buf, start, end, Method::Post.token().as_slice()) {
            return Some(Method::Post);
        }
        if slice_is(buf, start, end, Method::Put.token().as_slice()) {
            return Some(Method::Put);
        }
        if slice_is(buf, start, end, Method::Delete.token().as_slice()) {
            return Some(Method::Delete);
        }
        if slice_is(buf, start, end, Method::Head.token().as_slice()) {
            return Some(Method::Head);
        }
        if slice_is(buf, start, end, Method::Connect.token().as_slice()) {
            return Some(Method::Connect);
        }
        if slice_is(buf, start, end, Method::Options.token().as_slice()) {
            return Some(Method::Options);
        }
        if slice_is(buf, start, end, Method::Trace.token().as_slice()) {
            return Some(Method::Trace);
        }
        if slice_is(buf, start, end, Method::Patch.token().as_slice()) {
            return Some(Method::Patch);
        }
        None
    }
}

} // verus!
