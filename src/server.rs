use vstd::prelude::*;

use crate::request::{parse, ParseError, Request};
use crate::response::{Response, ResponseModel, StatusCode};

verus! {

/// The response given to a request that could not be parsed, unless a
/// handler says otherwise: `400 Bad Request` with no body.
pub open spec fn bad_request_spec() -> ResponseModel {
    ResponseModel { status: StatusCode::BadRequest, body: None }
}

/// The default response to a request that could not be parsed.
pub fn bad_request_response() -> (r: Response)
    ensures
        r@ == bad_request_spec(),
{
    Response::new(StatusCode::BadRequest, None)
}

/// What a consumer implements to turn requests into responses.
pub trait Handler {
    /// The response to a well-formed request.
    fn handle_request(&mut self, request: &Request) -> Response;

    /// Receives a diagnostic message; by default it is discarded.
    fn log(&mut self, message: &str) {
    }

    /// The response to a buffer that did not parse: by default the error's
    /// description goes to `log` and the response is `400 Bad Request`.
    fn handle_bad_request(&mut self, e: &ParseError) -> Response {
        self.log(e.kind.description());
        bad_request_response()
    }
}

/// Turns one buffer read from a connection into the response to send back:
/// a request that parses goes to `handle_request`, a failure to
/// `handle_bad_request`.
pub fn respond<H: Handler>(handler: &mut H, buf: &[u8]) -> Response {
    match parse(buf) {
        Ok(request) => handler.handle_request(&request),
        Err(e) => handler.handle_bad_request(&e),
    }
}

/// The address a server listens on.
pub struct Server {
    addr: String,
}

impl View for Server {
    type V = Seq<char>;

    closed spec fn view(&self) -> Seq<char> {
        self.addr@
    }
}

impl Server {
    /// A server that will listen on `addr`.
    pub fn new(addr: String) -> (r: Server)
        ensures
            r@ == addr@,
    {
        Server { addr }
    }

    /// The address this server listens on.
    pub fn addr(&self) -> (r: &String)
        ensures
            r@ == self@,
    {
        &self.addr
    }
}

} // verus!
