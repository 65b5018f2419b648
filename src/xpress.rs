//! The application: a route table built at start-up, and what a worker decides
//! for each connection once the request has been read.
use vstd::prelude::*;
use vstd::utf8::encode_utf8;
use crate::error::{message_of, prefix_of, status_of, XpressError};
use crate::parser::path_parts;
use crate::request::Request;
use crate::response::Response;
use crate::router::{Part, parse_route, resolution, route_added, Lookup, Router};

verus! {

/// An application: the address to listen on and its routes. `H` is the type of
/// the handlers.
pub struct Xpress<H> {
    pub address: String,
    pub router: Router<H>,
}

/// The headers of a fresh response.
pub open spec fn fresh_headers() -> Map<Seq<char>, Seq<char>> {
    Map::<Seq<char>, Seq<char>>::empty().insert("Server"@, "Xpress/1.0"@)
}

/// The body of the response that reports an error with a message of its own.
pub open spec fn error_body(e: XpressError, m: Seq<char>) -> Seq<u8> {
    encode_utf8("Error: "@ + prefix_of(e) + m)
}

/// A response that reports the error `e`: its status, a fresh response's
/// headers, and the error's description as body.
pub open spec fn reports(r: Response, e: XpressError) -> bool {
    &&& r.status == status_of(e)
    &&& r.headers@ == fresh_headers()
    &&& message_of(e) matches Some(m) ==> r.body@ == error_body(e, m)
}

/// The response that reports an error.
pub fn error_response(err: &XpressError) -> (r: Response)
    ensures
        reports(r, *err),
{
    let mut text = String::from_str("Error: ");
    let detail = err.describe();
    text.append(detail.as_str());
    proof {
        if let Some(m) = message_of(*err) {
            assert(text@ =~= "Error: "@ + prefix_of(*err) + m);
        }
    }
    let r = Response::new();
    let mut r = r.status(err.status_code());
    r.body = text.as_str().as_bytes_vec();
    r
}

/// The status that answers an error a handler returned: its own when that is
/// a server error, 500 otherwise.
pub open spec fn handler_error_status(e: XpressError) -> u16 {
    if 500 <= status_of(e) <= 599 {
        status_of(e)
    } else {
        500
    }
}

/// Marks a response to close the connection.
pub fn closing(resp: Response) -> (r: Response)
    ensures
        r.status == resp.status,
        r.body == resp.body,
        r.headers@ == resp.headers@.insert("Connection"@, "close"@),
{
    let mut r = resp;
    r.headers.insert(String::from_str("Connection"), String::from_str("close"));
    r
}

/// The response a worker writes after calling a handler: the handler's
/// response, or a server error that reports the error it returned, marked to
/// close the connection.
pub fn finish_response(outcome: Result<Response, XpressError>) -> (r: Response)
    ensures
        match outcome {
            Ok(resp) => {
                &&& r.status == resp.status
                &&& r.body == resp.body
                &&& r.headers@ == resp.headers@.insert("Connection"@, "close"@)
            },
            Err(e) => {
                &&& 500 <= r.status <= 599
                &&& r.status == handler_error_status(e)
                &&& r.headers@ == fresh_headers().insert("Connection"@, "close"@)
                &&& message_of(e) matches Some(m) ==> r.body@ == error_body(e, m)
            },
        },
{
    match outcome {
        Ok(resp) => closing(resp),
        Err(e) => {
            let report = error_response(&e);
            let status = report.status;
            let report = if 500 <= status && status <= 599 {
                report
            } else {
                report.status(500)
            };
            closing(report)
        },
    }
}

/// What to answer to a request that could not be read: nothing when the stream
/// failed, the report of the error otherwise.
pub fn reject(err: XpressError) -> (r: Option<Response>)
    ensures
        err is IoError ==> r is None,
        !(err is IoError) ==> (r matches Some(resp) && resp.status == status_of(err)
            && resp.headers@ == fresh_headers().insert("Connection"@, "close"@) && (message_of(
            err,
        ) matches Some(m) ==> resp.body@ == error_body(err, m))),
{
    match err {
        XpressError::IoError(_) => None,
        _ => Some(closing(error_response(&err))),
    }
}

/// What a worker does with a request: call a handler, or answer at once.
pub enum Dispatch<'a, H> {
    Call(&'a H, Request),
    Reply(Response),
}

/// Routes a parsed request. When a route matches, its handler is to be called
/// with the request, now holding the path parameters. Otherwise the answer is
/// 405 when the path matches under another method, else 404.
pub fn dispatch<'a, H>(router: &'a Router<H>, req: Request) -> (r: Dispatch<'a, H>)
    requires
        router.wf(),
    ensures
        match resolution(router.patterns(req.method@), path_parts(req.path@)) {
            Some((k, b)) => r matches Dispatch::Call(h, routed) && {
                &&& *h == router.handlers(req.method@)[k]
                &&& routed.params@ == b
                &&& routed.method == req.method
                &&& routed.path == req.path
                &&& routed.headers == req.headers
                &&& routed.query == req.query
                &&& routed.body == req.body
            },
            None => r matches Dispatch::Reply(resp) && resp.headers@ == fresh_headers().insert(
                "Connection"@,
                "close"@,
            ) && if exists|m: Seq<char>|
                #[trigger] router.methods().contains(m) && resolution(
                    router.patterns(m),
                    path_parts(req.path@),
                ) is Some {
                resp.status == 405 && resp.body@ == encode_utf8(
                    "Error: "@ + "Method Not Allowed: "@ + (req.method@ + " "@ + req.path@),
                )
            } else {
                resp.status == 404 && resp.body@ == encode_utf8(
                    "Error: "@ + "Route Not Found: "@ + (req.method@ + " "@ + req.path@),
                )
            },
        },
{
    let mut req = req;
    match router.lookup(req.method.clone(), req.path.clone()) {
        Lookup::Found(h, params) => {
            req.params = params;
            Dispatch::Call(h, req)
        },
        Lookup::MethodNotAllowed => {
            let mut what = req.method.clone();
            what.append(" ");
            what.append(req.path.as_str());
            Dispatch::Reply(closing(error_response(&XpressError::MethodNotAllowed(what))))
        },
        Lookup::NotFound => {
            let mut what = req.method.clone();
            what.append(" ");
            what.append(req.path.as_str());
            Dispatch::Reply(closing(error_response(&XpressError::NotFound(what))))
        },
    }
}

impl<H> Xpress<H> {
    pub fn new(address: &str) -> (r: Xpress<H>)
        ensures
            r.address@ == address@,
            r.router.wf(),
            r.router.methods() == Seq::<Seq<char>>::empty(),
            forall|m: Seq<char>| #[trigger] r.router.patterns(m) == Seq::<Seq<Part>>::empty(),
            forall|m: Seq<char>| #[trigger] r.router.handlers(m) == Seq::<H>::empty(),
    {
        Xpress { address: String::from_str(address), router: Router::new() }
    }

    /// Registers `handler` for `verb` requests to `path`.
    fn route(&mut self, verb: &str, path: &str, handler: H)
        requires
            old(self).router.wf(),
            parse_route(verb@ + path@) is Some,
        ensures
            final(self).router.wf(),
            final(self).address == old(self).address,
            route_added(old(self).router, final(self).router, verb@ + path@, handler),
    {
        let mut route = String::from_str(verb);
        route.append(path);
        let registered = self.router.register_route(route, handler);
        assert(registered is Ok);
    }

    /// Registers `handler` for GET requests to `path`, which must hold a
    /// path word.
    pub fn get(&mut self, path: &str, handler: H)
        requires
            old(self).router.wf(),
            parse_route("GET "@ + path@) is Some,
        ensures
            final(self).router.wf(),
            final(self).address == old(self).address,
            route_added(old(self).router, final(self).router, "GET "@ + path@, handler),
    {
        self.route("GET ", path, handler)
    }

    /// Registers `handler` for POST requests to `path`, which must hold a
    /// path word.
    pub fn post(&mut self, path: &str, handler: H)
        requires
            old(self).router.wf(),
            parse_route("POST "@ + path@) is Some,
        ensures
            final(self).router.wf(),
            final(self).address == old(self).address,
            route_added(old(self).router, final(self).router, "POST "@ + path@, handler),
    {
        self.route("POST ", path, handler)
    }

    /// Registers `handler` for PUT requests to `path`, which must hold a
    /// path word.
    pub fn put(&mut self, path: &str, handler: H)
        requires
            old(self).router.wf(),
            parse_route("PUT "@ + path@) is Some,
        ensures
            final(self).router.wf(),
            final(self).address == old(self).address,
            route_added(old(self).router, final(self).router, "PUT "@ + path@, handler),
    {
        self.route("PUT ", path, handler)
    }

    /// Registers `handler` for DELETE requests to `path`, which must hold a
    /// path word.
    pub fn delete(&mut self, path: &str, handler: H)
        requires
            old(self).router.wf(),
            parse_route("DELETE "@ + path@) is Some,
        ensures
            final(self).router.wf(),
            final(self).address == old(self).address,
            route_added(old(self).router, final(self).router, "DELETE "@ + path@, handler),
    {
        self.route("DELETE ", path, handler)
    }
}

} // verus!
