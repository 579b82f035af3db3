//! Shorthand methods for sending redirects.
use vstd::prelude::*;

use crate::context::{flag_bit, same_but_response, Context, ContextFlag};
use crate::header::Header;
use crate::http::status::Status;

verus! {

/// Types of redirects that can be sent.
///
/// | Name             | Status | Permanence | Cacheable      | Request Method Subsequent Request |
/// | :--------------- | :----- | :--------- | :------------- | :-------------------------------- |
/// | MovedPermanently | 301    | Permanent  | Yes            | GET or POST may change            |
/// | Found            | 302    | Temporary  | Not by default | GET or POST may change            |
/// | SeeOther         | 303    | Temporary  | Never          | Always GET                        |
/// | Temporary        | 307    | Temporary  | Not by default | May not change                    |
/// | Permanent        | 308    | Permanent  | By default     | May not change                    |
#[derive(Debug, Clone, Copy, PartialEq, Eq, Structural)]
pub enum RedirectType {
    /// **302 Found**
    Found,
    /// **301 Moved Permanently**
    MovedPermanently,
    /// **308 Permanent Redirect**
    Permanent,
    /// **307 Temporary Redirect**
    Temporary,
    /// **303 See Other**
    SeeOther,
}

/// The status of a redirect type.
pub open spec fn redirect_status(t: RedirectType) -> Status {
    match t {
        RedirectType::Found => Status::Found,
        RedirectType::MovedPermanently => Status::MovedPermanently,
        RedirectType::Permanent => Status::PermanentRedirect,
        RedirectType::Temporary => Status::TemporaryRedirect,
        RedirectType::SeeOther => Status::SeeOther,
    }
}

impl From<RedirectType> for Status {
    fn from(redirect_type: RedirectType) -> (r: Status) {
        match redirect_type {
            RedirectType::Found => Status::Found,
            RedirectType::MovedPermanently => Status::MovedPermanently,
            RedirectType::Permanent => Status::PermanentRedirect,
            RedirectType::Temporary => Status::TemporaryRedirect,
            RedirectType::SeeOther => Status::SeeOther,
        }
    }
}

impl vstd::std_specs::convert::FromSpecImpl<RedirectType> for Status {
    open spec fn obeys_from_spec() -> bool {
        true
    }

    open spec fn from_spec(v: RedirectType) -> Status {
        redirect_status(v)
    }
}

/// Shorthand methods for sending redirects.
pub trait RedirectResponse {
    /// A redirect with the default 302 Found status code to `url`; no body is added.
    fn redirect(&mut self, url: &str) -> &mut Self;

    /// A redirect of the given type to `url`; no body is added.
    fn redirect_type(&mut self, redirect_type: RedirectType, url: &str) -> &mut Self;
}

impl<State> RedirectResponse for Context<State> {
    fn redirect(&mut self, url: &str) -> (r: &mut Self)
        ensures
            r.response.status == Status::Found,
            r.response.headers@.len() == old(self).response.headers@.len() + 1,
            r.response.headers@.take(old(self).response.headers@.len() as int)
                == old(self).response.headers@,
            r.response.headers@.last().name@ == "Location"@,
            r.response.headers@.last().value@ == url@,
            r.response.data == old(self).response.data,
            r.flags.0 == old(self).flags.0 | flag_bit(ContextFlag::ResponseDirty),
            same_but_response(*old(self), *r),
            *final(self) == *final(r),
    {
        self.redirect_type(RedirectType::Found, url)
    }

    fn redirect_type(&mut self, redirect_type: RedirectType, url: &str) -> (r: &mut Self)
        ensures
            r.response.status == redirect_status(redirect_type),
            r.response.headers@.len() == old(self).response.headers@.len() + 1,
            r.response.headers@.take(old(self).response.headers@.len() as int)
                == old(self).response.headers@,
            r.response.headers@.last().name@ == "Location"@,
            r.response.headers@.last().value@ == url@,
            r.response.data == old(self).response.data,
            r.flags.0 == old(self).flags.0 | flag_bit(ContextFlag::ResponseDirty),
            same_but_response(*old(self), *r),
            *final(self) == *final(r),
    {
        let ghost before = self.response.headers@;
        let status = Status::from(redirect_type);
        self.response.status = status;
        self.response.headers.push(Header::new("Location", url));
        assert(self.response.headers@.take(before.len() as int) =~= before);
        self.flags.set(ContextFlag::ResponseDirty);
        self
    }
}

} // verus!
