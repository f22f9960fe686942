use vstd::prelude::*;
use crate::http::{DispatchContext, Request, Response, is_internal_error};
use crate::middleware::{Outcome, chain_outcome, all_pass_through, lemma_pass_through_chain};

verus! {

/// Whether the response chain also runs on an explicit failure of the
/// handler, or only on its success.
#[derive(Clone, Copy)]
pub enum ResponsePolicy {
    AfterEveryResult,
    AfterSuccessOnly,
}

/// Where a dispatch stands.
pub enum Phase {
    RequestChainRunning,
    HandlerRunning,
    ResponseChainRunning,
    Completed,
}

/// What the driver of a dispatch must do next.
pub enum DispatchAction {
    /// Call the handler with this request and a fresh response.
    RunHandler(Request),
    /// Run the response chain on this response.
    RunResponseChain(Response),
    /// Send this response; the dispatch is complete.
    Reply(Response),
}

/// The supervisor of one dispatch: request chain, handler, response chain,
/// and exactly one reply.
pub struct Dispatch {
    pub phase: Phase,
    pub policy: ResponsePolicy,
}

impl Dispatch {
    /// The dispatch is still running and may still fault.
    pub open spec fn running(self) -> bool {
        !(self.phase is Completed)
    }
}

/// The response a finished response chain leaves: the one it continued
/// with, or the one it short-circuited with.
pub open spec fn reply_of(o: Outcome<Response, Response>) -> Response {
    match o {
        Outcome::Continue(r) => r,
        Outcome::ShortCircuit(r) => r,
    }
}

/// Transition once the request chain has finished.
pub open spec fn after_request_chain_spec(d: Dispatch, o: Outcome<Request, Response>) -> (Dispatch, DispatchAction) {
    match o {
        Outcome::Continue(q) => (Dispatch { phase: Phase::HandlerRunning, ..d }, DispatchAction::RunHandler(q)),
        Outcome::ShortCircuit(r) => (Dispatch { phase: Phase::Completed, ..d }, DispatchAction::Reply(r)),
    }
}

/// Transition once the handler has returned.
pub open spec fn after_handler_spec(d: Dispatch, h: Result<Response, Response>) -> (Dispatch, DispatchAction) {
    match h {
        Ok(r) => (Dispatch { phase: Phase::ResponseChainRunning, ..d }, DispatchAction::RunResponseChain(r)),
        Err(r) => if d.policy is AfterEveryResult {
            (Dispatch { phase: Phase::ResponseChainRunning, ..d }, DispatchAction::RunResponseChain(r))
        } else {
            (Dispatch { phase: Phase::Completed, ..d }, DispatchAction::Reply(r))
        },
    }
}

/// Transition once the response chain has finished.
pub open spec fn after_response_chain_spec(d: Dispatch, o: Outcome<Response, Response>) -> (Dispatch, DispatchAction) {
    (Dispatch { phase: Phase::Completed, ..d }, DispatchAction::Reply(reply_of(o)))
}

/// The response one dispatch produces when nothing faults: the request
/// chain, then the handler (given the request that chain continued with),
/// then the response chain as the policy says.
pub open spec fn dispatch_model(
    req_steps: Seq<spec_fn(Request) -> Outcome<Request, Response>>,
    handler: spec_fn(Request) -> Result<Response, Response>,
    res_steps: Seq<spec_fn(Response) -> Outcome<Response, Response>>,
    policy: ResponsePolicy,
    req: Request,
) -> Response {
    match chain_outcome(req_steps, req) {
        Outcome::ShortCircuit(r) => r,
        Outcome::Continue(q) => match handler(q) {
            Ok(r) => reply_of(chain_outcome(res_steps, r)),
            Err(r) => if policy is AfterEveryResult {
                reply_of(chain_outcome(res_steps, r))
            } else {
                r
            },
        },
    }
}

/// The reply a dispatch in phase `RequestChainRunning` sends when each stage
/// it asks for is run as the models say.
pub open spec fn drive_dispatch(
    d: Dispatch,
    req_steps: Seq<spec_fn(Request) -> Outcome<Request, Response>>,
    handler: spec_fn(Request) -> Result<Response, Response>,
    res_steps: Seq<spec_fn(Response) -> Outcome<Response, Response>>,
    req: Request,
) -> Option<Response> {
    let (d1, a1) = after_request_chain_spec(d, chain_outcome(req_steps, req));
    match a1 {
        DispatchAction::Reply(r) => Some(r),
        DispatchAction::RunHandler(q) => {
            let (d2, a2) = after_handler_spec(d1, handler(q));
            match a2 {
                DispatchAction::Reply(r) => Some(r),
                DispatchAction::RunResponseChain(r) => {
                    let (d3, a3) = after_response_chain_spec(d2, chain_outcome(res_steps, r));
                    match a3 {
                        DispatchAction::Reply(x) => Some(x),
                        _ => None,
                    }
                },
                _ => None,
            }
        },
        _ => None,
    }
}

impl Dispatch {
    /// Receives a request: attaches the connection's context to it and
    /// starts the request chain, which is to run on the request returned.
    pub fn begin(req: Request, ctx: DispatchContext, policy: ResponsePolicy) -> (r: (Dispatch, Request))
        ensures
            r.0.phase is RequestChainRunning,
            r.0.policy == policy,
            r.1.remote == Some(ctx.remote),
            r.1.method == req.method,
            r.1.path == req.path,
            r.1.body == req.body,
            r.1.extensions@ == req.extensions@,
    {
        let mut req = req;
        req.attach(ctx);
        (Dispatch { phase: Phase::RequestChainRunning, policy }, req)
    }

    /// The request chain finished: a continue goes on to the handler, a
    /// short-circuit is the reply and the handler is never called.
    pub fn on_request_chain(&mut self, o: Outcome<Request, Response>) -> (a: DispatchAction)
        requires
            old(self).phase is RequestChainRunning,
        ensures
            (*final(self), a) == after_request_chain_spec(*old(self), o),
    {
        match o {
            Outcome::Continue(q) => {
                self.phase = Phase::HandlerRunning;
                DispatchAction::RunHandler(q)
            },
            Outcome::ShortCircuit(r) => {
                self.phase = Phase::Completed;
                DispatchAction::Reply(r)
            },
        }
    }

    /// The handler returned: a success goes on to the response chain; an
    /// explicit failure does too under `AfterEveryResult`, and is the reply
    /// under `AfterSuccessOnly`.
    pub fn on_handler(&mut self, h: Result<Response, Response>) -> (a: DispatchAction)
        requires
            old(self).phase is HandlerRunning,
        ensures
            (*final(self), a) == after_handler_spec(*old(self), h),
    {
        match h {
            Ok(r) => {
                self.phase = Phase::ResponseChainRunning;
                DispatchAction::RunResponseChain(r)
            },
            Err(r) => {
                match self.policy {
                    ResponsePolicy::AfterEveryResult => {
                        self.phase = Phase::ResponseChainRunning;
                        DispatchAction::RunResponseChain(r)
                    },
                    ResponsePolicy::AfterSuccessOnly => {
                        self.phase = Phase::Completed;
                        DispatchAction::Reply(r)
                    },
                }
            },
        }
    }

    /// The response chain finished: whichever response it left is the reply.
    pub fn on_response_chain(&mut self, o: Outcome<Response, Response>) -> (a: DispatchAction)
        requires
            old(self).phase is ResponseChainRunning,
        ensures
            (*final(self), a) == after_response_chain_spec(*old(self), o),
    {
        self.phase = Phase::Completed;
        match o {
            Outcome::Continue(r) => DispatchAction::Reply(r),
            Outcome::ShortCircuit(r) => DispatchAction::Reply(r),
        }
    }

    /// A step or the handler terminated abnormally: the dispatch completes
    /// with the generic failure response.
    pub fn on_fault(&mut self) -> (r: Response)
        requires
            old(self).running(),
        ensures
            is_internal_error(r),
            final(self).phase is Completed,
            final(self).policy == old(self).policy,
    {
        self.phase = Phase::Completed;
        Response::internal_error()
    }

    /// Whether the dispatch is still running.
    pub fn is_running(&self) -> (r: bool)
        ensures
            r == self.running(),
    {
        !matches!(self.phase, Phase::Completed)
    }
}

/// Settles what the fault boundary caught into the one response to send:
/// `None` stands for an abnormal termination and gives the generic failure
/// response; a success and an explicit failure are both sent as they are.
pub fn settle(caught: Option<Result<Response, Response>>) -> (r: Response)
    ensures
        caught is None ==> is_internal_error(r),
        caught matches Some(Ok(x)) ==> r == x,
        caught matches Some(Err(x)) ==> r == x,
{
    match caught {
        Some(Ok(x)) => x,
        Some(Err(x)) => x,
        None => Response::internal_error(),
    }
}

/// A dispatch driven from its start, with each stage run as the models say,
/// replies with exactly the response of the dispatch model.
pub proof fn lemma_dispatch_follows_model(
    d: Dispatch,
    req_steps: Seq<spec_fn(Request) -> Outcome<Request, Response>>,
    handler: spec_fn(Request) -> Result<Response, Response>,
    res_steps: Seq<spec_fn(Response) -> Outcome<Response, Response>>,
    req: Request,
)
    requires
        d.phase is RequestChainRunning,
    ensures
        drive_dispatch(d, req_steps, handler, res_steps, req) == Some(
            dispatch_model(req_steps, handler, res_steps, d.policy, req),
        ),
{
}

/// A request chain of pass-through steps gives the same reply as calling
/// the handler with no request chain at all.
pub proof fn lemma_pass_through_dispatch(
    req_steps: Seq<spec_fn(Request) -> Outcome<Request, Response>>,
    handler: spec_fn(Request) -> Result<Response, Response>,
    res_steps: Seq<spec_fn(Response) -> Outcome<Response, Response>>,
    policy: ResponsePolicy,
    req: Request,
)
    requires
        all_pass_through(req_steps),
    ensures
        dispatch_model(req_steps, handler, res_steps, policy, req) == dispatch_model(
            Seq::empty(),
            handler,
            res_steps,
            policy,
            req,
        ),
{
    lemma_pass_through_chain(req_steps, req);
}

} // verus!
