use std::cell::Cell;

use arc_reactor::dispatch::{settle, Dispatch, DispatchAction, Phase, ResponsePolicy};
use arc_reactor::http::{DispatchContext, RemoteAddr, Request, Response, INTERNAL_SERVER_ERROR, OK};
use arc_reactor::middleware::{run_chain, ChainAction, ChainRun, MiddleWare, Outcome};

/// Continues with the request unchanged and counts its invocations.
struct Counting<'a> {
    calls: &'a Cell<usize>,
}

impl<'a> MiddleWare<Request> for Counting<'a> {
    fn call(&self, param: Request) -> Outcome<Request, Response> {
        self.calls.set(self.calls.get() + 1);
        Outcome::Continue(param)
    }
}

/// Short-circuits with the given status and counts its invocations.
struct Reject<'a> {
    calls: &'a Cell<usize>,
    status: u16,
}

impl<'a> MiddleWare<Request> for Reject<'a> {
    fn call(&self, _param: Request) -> Outcome<Request, Response> {
        self.calls.set(self.calls.get() + 1);
        Outcome::ShortCircuit(Response::with(self.status, Vec::new()))
    }
}

/// Either kind of request step, so that one list can hold both.
enum Step<'a> {
    Pass(Counting<'a>),
    Stop(Reject<'a>),
    Tag(u64, Vec<u8>),
}

impl<'a> MiddleWare<Request> for Step<'a> {
    fn call(&self, param: Request) -> Outcome<Request, Response> {
        match self {
            Step::Pass(s) => s.call(param),
            Step::Stop(s) => s.call(param),
            Step::Tag(k, v) => {
                let mut param = param;
                param.set_extension(*k, v.clone());
                Outcome::Continue(param)
            }
        }
    }
}

/// Appends a byte to the body of the response.
struct Append(u8);

impl MiddleWare<Response> for Append {
    fn call(&self, mut param: Response) -> Outcome<Response, Response> {
        param.body.push(self.0);
        Outcome::Continue(param)
    }
}

fn request() -> Request {
    Request::new("GET".to_string(), "/".to_string(), Vec::new())
}

fn context() -> DispatchContext {
    DispatchContext { remote: RemoteAddr { ip: vec![127, 0, 0, 1], port: 8080 } }
}

/// How a test handler ends: a response, or an abnormal termination.
enum HandlerEnd {
    Done(Result<Response, Response>),
    Fault(String),
}

/// Runs one dispatch to its reply, as a transport driver would.
fn dispatch<S: MiddleWare<Request>, R: MiddleWare<Response>>(
    req_steps: &Vec<S>,
    handler: &dyn Fn(Request, Response) -> HandlerEnd,
    res_steps: &Vec<R>,
    policy: ResponsePolicy,
    req: Request,
) -> (Response, usize) {
    let (mut d, req) = Dispatch::begin(req, context(), policy);
    let mut handler_calls = 0;
    let (o, _) = run_chain(req_steps, req);
    let mut action = d.on_request_chain(o);
    loop {
        match action {
            DispatchAction::RunHandler(q) => {
                handler_calls += 1;
                match handler(q, Response::new()) {
                    HandlerEnd::Done(h) => action = d.on_handler(h),
                    HandlerEnd::Fault(_) => {
                        let r = d.on_fault();
                        assert!(!d.is_running());
                        return (r, handler_calls);
                    }
                }
            }
            DispatchAction::RunResponseChain(r) => {
                let (o, _) = run_chain(res_steps, r);
                action = d.on_response_chain(o);
            }
            DispatchAction::Reply(r) => {
                assert!(!d.is_running());
                return (r, handler_calls);
            }
        }
    }
}

fn hi_handler(_req: Request, _res: Response) -> HandlerEnd {
    HandlerEnd::Done(Ok(Response::with(200, b"hi".to_vec())))
}

#[test]
fn short_circuit_skips_later_steps() {
    let counters: Vec<Cell<usize>> = (0..5).map(|_| Cell::new(0)).collect();
    let steps = vec![
        Step::Pass(Counting { calls: &counters[0] }),
        Step::Pass(Counting { calls: &counters[1] }),
        Step::Stop(Reject { calls: &counters[2], status: 403 }),
        Step::Pass(Counting { calls: &counters[3] }),
        Step::Pass(Counting { calls: &counters[4] }),
    ];
    let (o, n) = run_chain(&steps, request());
    assert_eq!(n, 3);
    match o {
        Outcome::ShortCircuit(r) => assert_eq!(r.status, 403),
        Outcome::Continue(_) => panic!("expected a short-circuit"),
    }
    let calls: Vec<usize> = counters.iter().map(|c| c.get()).collect();
    assert_eq!(calls, vec![1, 1, 1, 0, 0]);
}

#[test]
fn short_circuit_at_first_step() {
    let a = Cell::new(0);
    let b = Cell::new(0);
    let steps = vec![Step::Stop(Reject { calls: &a, status: 401 }), Step::Pass(Counting { calls: &b })];
    let (o, n) = run_chain(&steps, request());
    assert_eq!(n, 1);
    assert!(matches!(o, Outcome::ShortCircuit(_)));
    assert_eq!((a.get(), b.get()), (1, 0));
}

#[test]
fn empty_chain_is_identity() {
    let steps: Vec<Step> = Vec::new();
    let mut req = Request::new("POST".to_string(), "/items".to_string(), b"payload".to_vec());
    req.set_extension(7, vec![1, 2]);
    let (o, n) = run_chain(&steps, req);
    assert_eq!(n, 0);
    match o {
        Outcome::Continue(q) => {
            assert_eq!(q.method, "POST");
            assert_eq!(q.path, "/items");
            assert_eq!(q.body, b"payload".to_vec());
            assert_eq!(q.extension(7), Some(vec![1, 2]));
        }
        Outcome::ShortCircuit(_) => panic!("an empty chain does not short-circuit"),
    }
}

#[test]
fn empty_chain_run_finishes_at_start() {
    let (run, action) = ChainRun::start::<u32, Response>(0, 42);
    assert!(!run.is_pending());
    assert!(matches!(action, ChainAction::Finish(Outcome::Continue(42))));
}

#[test]
fn chain_run_steps_in_order() {
    let (mut run, action) = ChainRun::start::<u32, Response>(3, 10);
    assert!(matches!(action, ChainAction::Invoke(0, 10)));
    assert!(matches!(run.resume(Outcome::<u32, Response>::Continue(11)), ChainAction::Invoke(1, 11)));
    assert!(matches!(run.resume(Outcome::<u32, Response>::Continue(12)), ChainAction::Invoke(2, 12)));
    assert!(matches!(run.resume(Outcome::<u32, Response>::Continue(13)), ChainAction::Finish(Outcome::Continue(13))));
    assert!(!run.is_pending());
}

#[test]
fn chain_run_stops_at_short_circuit() {
    let (mut run, _) = ChainRun::start::<u32, u16>(4, 0);
    assert!(matches!(run.resume(Outcome::<u32, u16>::Continue(1)), ChainAction::Invoke(1, 1)));
    assert!(matches!(run.resume(Outcome::<u32, u16>::ShortCircuit(401)), ChainAction::Finish(Outcome::ShortCircuit(401))));
    assert!(!run.is_pending());
}

#[test]
fn handler_fault_gives_internal_error_and_next_dispatch_succeeds() {
    let none: Vec<Step> = Vec::new();
    let no_res: Vec<Append> = Vec::new();
    let boom = |_req: Request, _res: Response| HandlerEnd::Fault("boom".to_string());
    let (r, calls) = dispatch(&none, &boom, &no_res, ResponsePolicy::AfterEveryResult, request());
    assert_eq!(calls, 1);
    assert_eq!(r.status, INTERNAL_SERVER_ERROR);
    assert!(r.body.is_empty());

    let (r2, _) = dispatch(&none, &hi_handler, &no_res, ResponsePolicy::AfterEveryResult, request());
    assert_eq!(r2.status, 200);
    assert_eq!(r2.body, b"hi".to_vec());
}

#[test]
fn fault_during_response_chain_gives_internal_error() {
    let (mut d, _req) = Dispatch::begin(request(), context(), ResponsePolicy::AfterEveryResult);
    let _ = d.on_request_chain(Outcome::Continue(request()));
    let _ = d.on_handler(Ok(Response::new()));
    assert!(matches!(d.phase, Phase::ResponseChainRunning));
    let r = d.on_fault();
    assert_eq!(r.status, 500);
    assert!(matches!(d.phase, Phase::Completed));
}

#[test]
fn pass_through_chain_matches_direct_handler() {
    let counters: Vec<Cell<usize>> = (0..4).map(|_| Cell::new(0)).collect();
    let steps: Vec<Step> = counters.iter().map(|c| Step::Pass(Counting { calls: c })).collect();
    let none: Vec<Step> = Vec::new();
    let no_res: Vec<Append> = Vec::new();
    let echo = |req: Request, mut res: Response| {
        res.body = req.body.clone();
        HandlerEnd::Done(Ok(res))
    };
    let body = b"same".to_vec();
    let mk = || Request::new("PUT".to_string(), "/x".to_string(), body.clone());
    let (via_chain, _) = dispatch(&steps, &echo, &no_res, ResponsePolicy::AfterEveryResult, mk());
    let (direct, _) = dispatch(&none, &echo, &no_res, ResponsePolicy::AfterEveryResult, mk());
    assert_eq!(via_chain.status, direct.status);
    assert_eq!(via_chain.body, direct.body);
    assert_eq!(via_chain.body, b"same".to_vec());
    assert!(counters.iter().all(|c| c.get() == 1));
}

#[test]
fn scenario_counter_then_unauthorized() {
    let counter = Cell::new(0);
    let b = Cell::new(0);
    let steps = vec![Step::Pass(Counting { calls: &counter }), Step::Stop(Reject { calls: &b, status: 401 })];
    let no_res: Vec<Append> = Vec::new();
    let (r, handler_calls) = dispatch(&steps, &hi_handler, &no_res, ResponsePolicy::AfterEveryResult, request());
    assert_eq!(handler_calls, 0);
    assert_eq!(counter.get(), 1);
    assert_eq!(r.status, 401);
}

#[test]
fn scenario_empty_chain_handler_hi() {
    let none: Vec<Step> = Vec::new();
    let no_res: Vec<Append> = Vec::new();
    let (r, calls) = dispatch(&none, &hi_handler, &no_res, ResponsePolicy::AfterEveryResult, request());
    assert_eq!(calls, 1);
    assert_eq!(r.status, 200);
    assert_eq!(r.body, b"hi".to_vec());
}

#[test]
fn scenario_interleaved_dispatches_keep_their_extensions() {
    const USER: u64 = 1;
    let tag_a = vec![Step::Tag(USER, b"alice".to_vec())];
    let tag_b = vec![Step::Tag(USER, b"bob".to_vec())];
    let (mut da, ra) = Dispatch::begin(request(), context(), ResponsePolicy::AfterEveryResult);
    let (mut db, rb) = Dispatch::begin(request(), context(), ResponsePolicy::AfterEveryResult);

    // Interleave the two runs step by step.
    let (mut run_a, act_a) = ChainRun::start::<Request, Response>(tag_a.len(), ra);
    let (mut run_b, act_b) = ChainRun::start::<Request, Response>(tag_b.len(), rb);
    let (qa, qb) = match (act_a, act_b) {
        (ChainAction::Invoke(ia, pa), ChainAction::Invoke(ib, pb)) => {
            let ob = tag_b[ib].call(pb);
            let oa = tag_a[ia].call(pa);
            (run_a.resume(oa), run_b.resume(ob))
        }
        _ => panic!("both chains have one step"),
    };
    let (qa, qb) = match (qa, qb) {
        (ChainAction::Finish(oa), ChainAction::Finish(ob)) => (da.on_request_chain(oa), db.on_request_chain(ob)),
        _ => panic!("both chains are done"),
    };
    match (qa, qb) {
        (DispatchAction::RunHandler(a), DispatchAction::RunHandler(b)) => {
            assert_eq!(a.extension(USER), Some(b"alice".to_vec()));
            assert_eq!(b.extension(USER), Some(b"bob".to_vec()));
            assert_eq!(a.remote.as_ref().map(|r| r.port), Some(8080));
        }
        _ => panic!("both dispatches reach their handlers"),
    }
}

#[test]
fn response_chain_runs_after_success() {
    let none: Vec<Step> = Vec::new();
    let res_steps = vec![Append(b'!'), Append(b'?')];
    let (r, _) = dispatch(&none, &hi_handler, &res_steps, ResponsePolicy::AfterSuccessOnly, request());
    assert_eq!(r.body, b"hi!?".to_vec());
}

#[test]
fn explicit_failure_policy() {
    let none: Vec<Step> = Vec::new();
    let res_steps = vec![Append(b'!')];
    let fail = |_req: Request, _res: Response| HandlerEnd::Done(Err(Response::with(404, b"no".to_vec())));
    let (every, _) = dispatch(&none, &fail, &res_steps, ResponsePolicy::AfterEveryResult, request());
    assert_eq!(every.status, 404);
    assert_eq!(every.body, b"no!".to_vec());
    let (only, _) = dispatch(&none, &fail, &res_steps, ResponsePolicy::AfterSuccessOnly, request());
    assert_eq!(only.status, 404);
    assert_eq!(only.body, b"no".to_vec());
}

#[test]
fn settle_each_result() {
    let ok = settle(Some(Ok(Response::with(201, b"a".to_vec()))));
    assert_eq!((ok.status, ok.body), (201, b"a".to_vec()));
    let err = settle(Some(Err(Response::with(401, Vec::new()))));
    assert_eq!(err.status, 401);
    let fault = settle(None);
    assert_eq!(fault.status, INTERNAL_SERVER_ERROR);
    assert!(fault.body.is_empty());
}

#[test]
fn begin_attaches_context() {
    let mut req = request();
    req.set_extension(3, vec![9]);
    let (d, req) = Dispatch::begin(req, context(), ResponsePolicy::AfterSuccessOnly);
    assert!(d.is_running());
    assert!(matches!(d.phase, Phase::RequestChainRunning));
    let remote = req.remote.as_ref().expect("remote attached");
    assert_eq!(remote.ip, vec![127, 0, 0, 1]);
    assert_eq!(remote.port, 8080);
    assert_eq!(req.extension(3), Some(vec![9]));
}

#[test]
fn extensions_replace_and_miss() {
    let mut req = request();
    assert!(!req.has_extension(5));
    assert_eq!(req.extension(5), None);
    req.set_extension(5, vec![1]);
    req.set_extension(5, vec![2, 3]);
    assert!(req.has_extension(5));
    assert_eq!(req.extension(5), Some(vec![2, 3]));
    assert_eq!(req.extension(6), None);
}

#[test]
fn fresh_response() {
    let r = Response::new();
    assert_eq!(r.status, OK);
    assert!(r.body.is_empty());
}

#[test]
fn chain_is_a_step() {
    let a = Cell::new(0);
    let stop = Cell::new(0);
    let inner = vec![Step::Pass(Counting { calls: &a }), Step::Pass(Counting { calls: &a })];
    assert!(matches!(inner.call(request()), Outcome::Continue(_)));
    assert_eq!(a.get(), 2);
    let rejecting = vec![Step::Stop(Reject { calls: &stop, status: 401 }), Step::Pass(Counting { calls: &a })];
    let outer = vec![inner, rejecting];
    let (o, n) = run_chain(&outer, request());
    assert_eq!(n, 2);
    assert_eq!((a.get(), stop.get()), (4, 1));
    match o {
        Outcome::ShortCircuit(r) => assert_eq!(r.status, 401),
        Outcome::Continue(_) => panic!("the inner chain short-circuits"),
    }
}
