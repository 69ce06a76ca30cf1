//! The route handlers of the demo site: each takes the parsed request,
//! the fresh response, and the page contents its caller read for it, and
//! fills the response in. Reading the page off disk is the caller's
//! business; these handlers only decide status, header and body.

use vstd::prelude::*;

verus! {

use crate::request::Request;
use crate::response::Response;
use vstd::string::StringExecFns;

/// Fills `res` as every page handler does: the given status, one
/// `Content-Type: text/html` header appended, and the page as the body.
fn page_response(res: Response, status: u16, contents: Vec<u8>) -> (r: Response)
    ensures
        r.status_code == status,
        r.headers@.len() == res.headers@.len() + 1,
        r.headers@.take(res.headers@.len() as int) == res.headers@,
        r.headers@.last().0@ == "Content-Type"@,
        r.headers@.last().1@ == "text/html"@,
        r.body@ == contents@,
{
    let mut out = res;
    out.set_status_code(status);
    out.add_header(String::from_str("Content-Type"), String::from_str("text/html"));
    out.set_body(contents);
    proof {
        assert(out.headers@.take(out.headers@.len() - 1) =~= res.headers@);
    }
    out
}

/// The demo site's routing table, one handler per page.
pub struct Routes {}

impl Routes {
    /// The front page: status 200, an HTML content type, and the page as
    /// the body.
    pub fn home_handler(_req: Request, res: Response, contents: Vec<u8>) -> (r: Response)
        ensures
            r.status_code == 200,
            r.headers@.len() == res.headers@.len() + 1,
            r.headers@.take(res.headers@.len() as int) == res.headers@,
            r.headers@.last().0@ == "Content-Type"@,
            r.headers@.last().1@ == "text/html"@,
            r.body@ == contents@,
    {
        page_response(res, 200, contents)
    }

    /// The about page: status 200, an HTML content type, and the page as
    /// the body.
    pub fn about_handler(_req: Request, res: Response, contents: Vec<u8>) -> (r: Response)
        ensures
            r.status_code == 200,
            r.headers@.len() == res.headers@.len() + 1,
            r.headers@.take(res.headers@.len() as int) == res.headers@,
            r.headers@.last().0@ == "Content-Type"@,
            r.headers@.last().1@ == "text/html"@,
            r.body@ == contents@,
    {
        page_response(res, 200, contents)
    }

    /// Any other path: status 404, an HTML content type, and the page as
    /// the body.
    pub fn not_found_handler(_req: Request, res: Response, contents: Vec<u8>) -> (r: Response)
        ensures
            r.status_code == 404,
            r.headers@.len() == res.headers@.len() + 1,
            r.headers@.take(res.headers@.len() as int) == res.headers@,
            r.headers@.last().0@ == "Content-Type"@,
            r.headers@.last().1@ == "text/html"@,
            r.body@ == contents@,
    {
        page_response(res, 404, contents)
    }
}

} // verus!
