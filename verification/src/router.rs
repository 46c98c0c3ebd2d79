//! The demonstration routing logic the connection handler dispatches
//! to: a fixed match over the request target.
//!
//! `/` is answered as-is, `/user-agent` echoes the `User-Agent` header,
//! `/echo/*` echoes the rest of the target, and anything else is
//! answered with `404 Not Found`.

use vstd::prelude::*;
use vstd::string::StrSliceExecFns;
use crate::request::{HttpRequest, RequestView, spec_first_header};
use crate::response::{HttpResponse, HttpStatus, ResponseView, spec_write_text};
use crate::text::{spec_starts_with, str_eq, str_starts_with};

verus! {

/// What routing does to the response prepared for a request: the
/// target picks the route, and a target no route matches — including
/// `/user-agent` without a `User-Agent` header — turns the status to
/// `NotFound`.
pub open spec fn spec_route(req: RequestView, resp: ResponseView) -> ResponseView {
    let target = req.request_line.target;
    if target == "/"@ {
        resp
    } else if target == "/user-agent"@ {
        match spec_first_header(req.headers, "User-Agent"@) {
            Some(v) => spec_write_text(resp, v),
            None => ResponseView { status: HttpStatus::NotFound, ..resp },
        }
    } else if spec_starts_with(target, "/echo/"@) {
        spec_write_text(resp, target.skip(6))
    } else {
        ResponseView { status: HttpStatus::NotFound, ..resp }
    }
}

/// Routes one parsed request, mutating the pre-built response as
/// [`spec_route`] says, and hands the response back.
pub fn handle_request(request: HttpRequest, response: HttpResponse) -> (r: HttpResponse)
    ensures
        r@ == spec_route(request@, response@),
{
    let mut response = response;
    let target = request.get_path();
    if str_eq(target, "/") {
        // The root route answers with the untouched 200 response.
    } else if str_eq(target, "/user-agent") {
        match request.get_header("User-Agent") {
            Some(v) => {
                response.write_text(v.as_str());
            },
            None => {
                response.set_status(HttpStatus::NotFound);
            },
        }
    } else if str_starts_with(target, "/echo/") {
        proof {
            reveal_strlit("/echo/");
        }
        let echo = target.substring_char(6, target.unicode_len());
        proof {
            assert(echo@ =~= request@.request_line.target.skip(6));
        }
        response.write_text(echo);
    } else {
        response.set_status(HttpStatus::NotFound);
    }
    response
}

} // verus!
