//! Handlers: what the server calls to answer a request.

use vstd::prelude::*;
use crate::request::Request;
use crate::response::{Response, ResponseView};

verus! {

/// `anyhow::Error`, the error a handler may report. The server never looks
/// inside one: it only tells failure from success.
#[verifier::external_type_specification]
#[verifier::external_body]
pub struct ExAnyhowError(anyhow::Error);

/// What a handler returns: its response, or the error it reports.
pub type Outcome = Result<Response, anyhow::Error>;

/// Anything that can answer a request. Handlers are shared by all
/// connections, so they can be called from any thread.
pub trait HandlerTrait: Send + Sync {
    /// The requests that `handle` may be called with: all of them, unless
    /// the handler says otherwise.
    open spec fn accepts(&self, request: Request) -> bool {
        true
    }

    /// The outcomes that `handle` may have for `request`: any, unless the
    /// handler says more.
    open spec fn responds(&self, request: Request, outcome: Outcome) -> bool {
        true
    }

    /// Answers `request`.
    fn handle(&self, request: Request) -> (outcome: Outcome)
        requires
            self.accepts(request),
        ensures
            self.responds(request, outcome),
    ;
}

/// Every function from a request to a response or an error is a handler:
/// it accepts what it requires, and responds as it ensures.
impl<F> HandlerTrait for F where F: Fn(Request) -> Outcome + Send + Sync {
    open spec fn accepts(&self, request: Request) -> bool {
        call_requires(*self, (request,))
    }

    open spec fn responds(&self, request: Request, outcome: Outcome) -> bool {
        call_ensures(*self, (request,), outcome)
    }

    fn handle(&self, request: Request) -> (outcome: Outcome) {
        self(request)
    }
}

/// A handler as the routing table keeps it.
pub type Handler = Box<dyn HandlerTrait>;

/// What a handler does, as a relation between requests and outcomes.
pub type Behaviour = spec_fn(Request, Outcome) -> bool;

/// The behaviour of `handler`: the outcomes it may have for each request.
pub open spec fn behaviour<H: HandlerTrait + ?Sized>(handler: &H) -> Behaviour {
    |request: Request, outcome: Outcome| handler.responds(request, outcome)
}

/// Whether `handler` can be called with every request.
pub open spec fn total<H: HandlerTrait + ?Sized>(handler: &H) -> bool {
    forall|request: Request| handler.accepts(request)
}

/// The stock fallback: answers every request with `NotFound`.
pub fn default_error_404_handler(_request: Request) -> (outcome: Outcome)
    ensures
        outcome matches Ok(response) && response@ == ResponseView::NotFound("not found"@),
{
    Ok(Response::NotFound("not found".to_owned()))
}

} // verus!
