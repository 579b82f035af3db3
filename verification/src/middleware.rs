//! Middleware is code that runs before and after the routes.
//! It can be used to log requests, rate limit requests, add analytics, etc.
use vstd::prelude::*;

use crate::error::Error;
use crate::request::Request;
use crate::response::Response;

verus! {

/// A response from a middleware handler
#[derive(Debug)]
pub enum MiddleResult {
    /// Continue to the next middleware
    Continue,
    /// Stop the middleware chain
    Abort,
    /// Stop the middleware chain and send this response
    Send(Response),
}

/// Code that runs before and after the routes, potentially modifying the request and response.
///
/// There are two kinds of hooks: raw and non-raw.
/// The raw hooks are passed a [`Result`], and by default call the non-raw hooks when it is `Ok`.
/// This lets a middleware handle errors (like page not found), while one that does not need to
/// only implements the plain hooks.
pub trait Middleware {
    /// Runs before the routes, on the request or the error parsing it.
    fn pre_raw(&mut self, req: &mut Result<Request, Error>) -> (r: MiddleResult)
        default_ensures
            (*old(req)) is Err ==> r is Continue && *final(req) == *old(req),
            (*old(req)) is Ok ==> (*final(req)) is Ok,
    {
        match req {
            Ok(r) => self.pre(r),
            Err(_) => MiddleResult::Continue,
        }
    }

    /// Runs before the routes.
    fn pre(&mut self, req: &mut Request) -> (r: MiddleResult)
        default_ensures
            r is Continue,
            *final(req) == *old(req),
    {
        MiddleResult::Continue
    }

    /// Runs after the routes, on the request and the response or the errors in their place.
    fn post_raw(&mut self, req: &Result<Request, Error>, res: &mut Result<Response, Error>) -> (r: MiddleResult)
        default_ensures
            (*req) is Err || (*old(res)) is Err ==> r is Continue && *final(res) == *old(res),
            (*req) is Ok && (*old(res)) is Ok ==> (*final(res)) is Ok,
    {
        match req {
            Ok(rq) => match res {
                Ok(rs) => self.post(rq, rs),
                Err(_) => MiddleResult::Continue,
            },
            Err(_) => MiddleResult::Continue,
        }
    }

    /// Runs after the routes.
    fn post(&mut self, req: &Request, res: &mut Response) -> (r: MiddleResult)
        default_ensures
            r is Continue,
            *final(res) == *old(res),
    {
        MiddleResult::Continue
    }

    /// Runs after the response has been sent, on the request or the error in its place.
    fn end_raw(&mut self, req: &Result<Request, Error>, res: &Response) {
        match req {
            Ok(r) => self.end(r, res),
            Err(_) => {},
        }
    }

    /// Runs after the response has been sent.
    fn end(&mut self, req: &Request, res: &Response) {
    }
}

} // verus!
