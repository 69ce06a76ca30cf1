//! The connection handler core: turn the text one connection carried
//! into a request, defer to the caller-supplied routing callback for a
//! response, and serialize that response to its exact wire bytes. The
//! caller does the reading and the writing; every decision in between is
//! verified here.

use vstd::prelude::*;

verus! {

use crate::request::{ParseError, Request, RequestModel, spec_parse_request};
use crate::response::{Response, spec_serialize};

/// Whether `res` is the fresh default response handed to the routing
/// callback beside the parsed request.
pub open spec fn is_default_response(res: Response) -> bool {
    &&& res.status_code == 200
    &&& res.headers@ == Seq::<(String, String)>::empty()
    &&& res.body@ == Seq::<u8>::empty()
}

/// Handles one connection's worth of text: parses the request, invokes
/// `callback` on it beside a fresh response, and returns the callback's
/// response serialized to its exact wire bytes. A malformed request is
/// reported as the parse error, untouched by the callback.
pub fn handler<F: FnOnce(Request, Response) -> Response>(text: &str, callback: F) -> (r: Result<
    Vec<u8>,
    ParseError,
>)
    requires
        forall|req: Request, res: Response|
            (spec_parse_request(text@) == Ok::<RequestModel, ParseError>(req@)
                && is_default_response(res)) ==> #[trigger] call_requires(callback, (req, res)),
    ensures
        match r {
            Result::Ok(bytes) => {
                &&& spec_parse_request(text@) is Ok
                &&& exists|req: Request, res: Response, out: Response|
                    {
                        &&& req@ == spec_parse_request(text@)->Ok_0
                        &&& is_default_response(res)
                        &&& #[trigger] call_ensures(callback, (req, res), out)
                        &&& bytes@ == spec_serialize(out)
                    }
            },
            Result::Err(e) => spec_parse_request(text@) == Err::<RequestModel, ParseError>(e),
        },
{
    match Request::new(text) {
        Result::Err(e) => Err(e),
        Result::Ok(req) => {
            let res = Response::new();
            let ghost greq = req;
            let ghost gres = res;
            let out = callback(req, res);
            let bytes = out.to_bytes();
            proof {
                assert(gres.headers@ =~= Seq::<(String, String)>::empty());
                assert(gres.body@ =~= Seq::<u8>::empty());
                assert(call_ensures(callback, (greq, gres), out));
            }
            Ok(bytes)
        },
    }
}

} // verus!
