use vstd::prelude::*;
use crate::http::Response;

verus! {

/// What a step answers: go on with a (possibly changed) payload, or stop
/// the chain with an alternate value.
pub enum Outcome<T, A> {
    Continue(T),
    ShortCircuit(A),
}

/// What the driver of a chain must do next.
pub enum ChainAction<T, A> {
    /// Invoke the step at this index with this payload, and hand its
    /// outcome back to `ChainRun::resume`.
    Invoke(usize, T),
    /// The chain is done; this is its outcome.
    Finish(Outcome<T, A>),
}

/// The position of one run through a chain of `len` steps.
pub struct ChainRun {
    pub len: usize,
    pub next: usize,
    pub finished: bool,
}

impl ChainRun {
    /// A step has been asked for and its outcome is awaited.
    pub open spec fn pending(self) -> bool {
        !self.finished && self.next < self.len
    }
}

/// The outcome of running `steps[i..]` on `payload`, stopping at the first
/// short-circuit.
pub open spec fn chain_from<T, A>(steps: Seq<spec_fn(T) -> Outcome<T, A>>, i: int, payload: T) -> Outcome<T, A>
    decreases steps.len() - i,
{
    if i < 0 || i >= steps.len() {
        Outcome::Continue(payload)
    } else {
        match (steps[i])(payload) {
            Outcome::Continue(p) => chain_from(steps, i + 1, p),
            Outcome::ShortCircuit(a) => Outcome::ShortCircuit(a),
        }
    }
}

/// How many of `steps[i..]` are invoked when the run starts at `i` with `payload`.
pub open spec fn invoked_from<T, A>(steps: Seq<spec_fn(T) -> Outcome<T, A>>, i: int, payload: T) -> nat
    decreases steps.len() - i,
{
    if i < 0 || i >= steps.len() {
        0
    } else {
        match (steps[i])(payload) {
            Outcome::Continue(p) => 1 + invoked_from(steps, i + 1, p),
            Outcome::ShortCircuit(_) => 1,
        }
    }
}

/// The outcome of a whole chain.
pub open spec fn chain_outcome<T, A>(steps: Seq<spec_fn(T) -> Outcome<T, A>>, payload: T) -> Outcome<T, A> {
    chain_from(steps, 0, payload)
}

/// How many steps of a whole chain are invoked.
pub open spec fn invoked<T, A>(steps: Seq<spec_fn(T) -> Outcome<T, A>>, payload: T) -> nat {
    invoked_from(steps, 0, payload)
}

/// The state and first action of a run over `len` steps.
pub open spec fn start_spec<T, A>(len: usize, payload: T) -> (ChainRun, ChainAction<T, A>) {
    if len == 0 {
        (ChainRun { len, next: 0, finished: true }, ChainAction::Finish(Outcome::Continue(payload)))
    } else {
        (ChainRun { len, next: 0, finished: false }, ChainAction::Invoke(0, payload))
    }
}

/// The state and action after the pending step answered `o`.
pub open spec fn resume_spec<T, A>(run: ChainRun, o: Outcome<T, A>) -> (ChainRun, ChainAction<T, A>) {
    match o {
        Outcome::Continue(p) => if run.next + 1 >= run.len {
            (ChainRun { finished: true, ..run }, ChainAction::Finish(Outcome::Continue(p)))
        } else {
            (ChainRun { next: (run.next + 1) as usize, ..run }, ChainAction::Invoke((run.next + 1) as usize, p))
        },
        Outcome::ShortCircuit(a) => (ChainRun { finished: true, ..run }, ChainAction::Finish(Outcome::ShortCircuit(a))),
    }
}

/// Drives a run whose steps answer as `steps` say: the indices invoked, in
/// order, and the outcome the run finishes with.
pub open spec fn drive<T, A>(steps: Seq<spec_fn(T) -> Outcome<T, A>>, run: ChainRun, action: ChainAction<T, A>) -> (Seq<int>, Outcome<T, A>)
    decreases (if run.finished { 0 } else { run.len - run.next + 1 }),
{
    match action {
        ChainAction::Finish(o) => (Seq::empty(), o),
        ChainAction::Invoke(i, p) => if run.pending() && i == run.next && run.len == steps.len() {
            let (run2, action2) = resume_spec(run, (steps[i as int])(p));
            let (rest, o) = drive(steps, run2, action2);
            (seq![i as int].add(rest), o)
        } else {
            (Seq::empty(), Outcome::Continue(p))
        },
    }
}

impl ChainRun {
    /// Starts a run over a chain of `len` steps. An empty chain finishes at
    /// once with the payload unchanged.
    pub fn start<T, A>(len: usize, payload: T) -> (r: (ChainRun, ChainAction<T, A>))
        ensures
            r == start_spec::<T, A>(len, payload),
    {
        if len == 0 {
            (ChainRun { len, next: 0, finished: true }, ChainAction::Finish(Outcome::Continue(payload)))
        } else {
            (ChainRun { len, next: 0, finished: false }, ChainAction::Invoke(0, payload))
        }
    }

    /// Hands the outcome of the pending step to the run: a continue moves on
    /// to the next step or finishes after the last; a short-circuit finishes
    /// at once and skips the steps left.
    pub fn resume<T, A>(&mut self, o: Outcome<T, A>) -> (r: ChainAction<T, A>)
        requires
            old(self).pending(),
        ensures
            (*final(self), r) == resume_spec(*old(self), o),
    {
        match o {
            Outcome::Continue(p) => {
                if self.next + 1 >= self.len {
                    self.finished = true;
                    ChainAction::Finish(Outcome::Continue(p))
                } else {
                    self.next = self.next + 1;
                    ChainAction::Invoke(self.next, p)
                }
            },
            Outcome::ShortCircuit(a) => {
                self.finished = true;
                ChainAction::Finish(Outcome::ShortCircuit(a))
            },
        }
    }

    /// The run is waiting for the outcome of a step.
    pub fn is_pending(&self) -> (r: bool)
        ensures
            r == self.pending(),
    {
        !self.finished && self.next < self.len
    }
}

/// The indices `i, i + 1, ..., i + n - 1`.
pub open spec fn indices_from(i: int, n: nat) -> Seq<int> {
    Seq::new(n, |j: int| i + j)
}

proof fn lemma_drive_from<T, A>(steps: Seq<spec_fn(T) -> Outcome<T, A>>, run: ChainRun, p: T)
    requires
        run.pending(),
        run.len == steps.len(),
    ensures
        drive(steps, run, ChainAction::Invoke(run.next, p)) == (
            indices_from(run.next as int, invoked_from(steps, run.next as int, p)),
            chain_from(steps, run.next as int, p),
        ),
    decreases run.len - run.next,
{
    let i = run.next as int;
    let (run2, action2) = resume_spec(run, (steps[i])(p));
    let whole = drive(steps, run, ChainAction::Invoke(run.next, p));
    assert(whole == (seq![i].add(drive(steps, run2, action2).0), drive(steps, run2, action2).1));
    match (steps[i])(p) {
        Outcome::Continue(q) => {
            if run.next + 1 < run.len {
                lemma_drive_from(steps, run2, q);
                assert(indices_from(i, invoked_from(steps, i, p)) =~= seq![i].add(
                    indices_from(i + 1, invoked_from(steps, i + 1, q)),
                ));
            } else {
                assert(invoked_from(steps, i + 1, q) == 0);
                assert(chain_from(steps, i + 1, q) == Outcome::<T, A>::Continue(q));
                assert(drive(steps, run2, action2) == (Seq::<int>::empty(), Outcome::<T, A>::Continue(q)));
                assert(indices_from(i, invoked_from(steps, i, p)) =~= seq![i].add(Seq::<int>::empty()));
            }
        },
        Outcome::ShortCircuit(_) => {
            assert(indices_from(i, invoked_from(steps, i, p)) =~= seq![i].add(Seq::<int>::empty()));
        },
    }
}

/// A run driven from its start invokes exactly the first `invoked(steps, p)`
/// steps, in list order, and finishes with the outcome of the chain.
pub proof fn lemma_run_follows_chain<T, A>(steps: Seq<spec_fn(T) -> Outcome<T, A>>, p: T)
    requires
        steps.len() <= usize::MAX,
    ensures
        ({
            let (run, action) = start_spec::<T, A>(steps.len() as usize, p);
            drive(steps, run, action) == (indices_from(0, invoked(steps, p)), chain_outcome(steps, p))
        }),
{
    let (run, action) = start_spec::<T, A>(steps.len() as usize, p);
    if steps.len() == 0 {
        assert(indices_from(0, 0) =~= Seq::<int>::empty());
    } else {
        lemma_drive_from(steps, run, p);
    }
}

proof fn lemma_invoked_before_stop<T, A>(steps: Seq<spec_fn(T) -> Outcome<T, A>>, k: int, i: int, p: T)
    requires
        0 <= i <= k < steps.len(),
        forall|t: T| #[trigger] (steps[k])(t) is ShortCircuit,
    ensures
        i + invoked_from(steps, i, p) <= k + 1,
        chain_from(steps, i, p) is ShortCircuit,
    decreases k - i,
{
    if i < k {
        match (steps[i])(p) {
            Outcome::Continue(q) => lemma_invoked_before_stop(steps, k, i + 1, q),
            Outcome::ShortCircuit(_) => {},
        }
    } else {
        assert((steps[k])(p) is ShortCircuit);
    }
}

/// When step `k` always short-circuits, no step after it is ever invoked:
/// every index a run invokes is at most `k`, and the chain short-circuits.
pub proof fn lemma_short_circuit_skips_rest<T, A>(steps: Seq<spec_fn(T) -> Outcome<T, A>>, k: int, p: T)
    requires
        0 <= k < steps.len(),
        steps.len() <= usize::MAX,
        forall|t: T| #[trigger] (steps[k])(t) is ShortCircuit,
    ensures
        invoked(steps, p) <= k + 1,
        chain_outcome(steps, p) is ShortCircuit,
        ({
            let (run, action) = start_spec::<T, A>(steps.len() as usize, p);
            forall|j: int| 0 <= j < drive(steps, run, action).0.len() ==> drive(steps, run, action).0[j] <= k
        }),
{
    lemma_invoked_before_stop(steps, k, 0, p);
    lemma_run_follows_chain(steps, p);
}

/// An empty chain is the identity: it invokes nothing and continues with
/// the payload it was given.
pub proof fn lemma_empty_chain_is_identity<T, A>(p: T)
    ensures
        chain_outcome(Seq::<spec_fn(T) -> Outcome<T, A>>::empty(), p) == Outcome::<T, A>::Continue(p),
        invoked(Seq::<spec_fn(T) -> Outcome<T, A>>::empty(), p) == 0,
        start_spec::<T, A>(0, p).1 == ChainAction::<T, A>::Finish(Outcome::Continue(p)),
{
}

/// Every step of `steps` hands its payload on unchanged.
pub open spec fn all_pass_through<T, A>(steps: Seq<spec_fn(T) -> Outcome<T, A>>) -> bool {
    forall|i: int, t: T| 0 <= i < steps.len() ==> #[trigger] (steps[i])(t) == Outcome::<T, A>::Continue(t)
}

proof fn lemma_pass_through_from<T, A>(steps: Seq<spec_fn(T) -> Outcome<T, A>>, i: int, p: T)
    requires
        0 <= i <= steps.len(),
        all_pass_through(steps),
    ensures
        chain_from(steps, i, p) == Outcome::<T, A>::Continue(p),
        invoked_from(steps, i, p) == steps.len() - i,
    decreases steps.len() - i,
{
    if i < steps.len() {
        assert((steps[i])(p) == Outcome::<T, A>::Continue(p));
        lemma_pass_through_from(steps, i + 1, p);
    }
}

/// A chain of pass-through steps invokes every step and continues with the
/// payload unchanged, as an empty chain does.
pub proof fn lemma_pass_through_chain<T, A>(steps: Seq<spec_fn(T) -> Outcome<T, A>>, p: T)
    requires
        all_pass_through(steps),
    ensures
        chain_outcome(steps, p) == Outcome::<T, A>::Continue(p),
        chain_outcome(steps, p) == chain_outcome(Seq::<spec_fn(T) -> Outcome<T, A>>::empty(), p),
        invoked(steps, p) == steps.len(),
{
    lemma_pass_through_from(steps, 0, p);
}

/// A processing step over payloads of type `T`: it continues with a
/// payload or short-circuits with a response.
pub trait MiddleWare<T> {
    /// `o` is an outcome this step may give when called with `param`. A
    /// step that states nothing of itself may give any outcome.
    open spec fn answers(&self, param: T, o: Outcome<T, Response>) -> bool {
        true
    }

    fn call(&self, param: T) -> (o: Outcome<T, Response>)
        ensures
            self.answers(param, o),
    ;
}

/// The payload that the step at index `i` is called with, in a run started
/// with `payload` whose first steps answered `outs`.
pub open spec fn input_at<T>(payload: T, outs: Seq<Outcome<T, Response>>, i: int) -> T {
    if i == 0 {
        payload
    } else {
        outs[i - 1]->Continue_0
    }
}

/// `outs` are the answers of the first `outs.len()` of `steps`, each step
/// called with the payload the one before continued with; every answer but
/// the last is a continue.
pub open spec fn is_trace<T, M: MiddleWare<T>>(steps: Seq<M>, payload: T, outs: Seq<Outcome<T, Response>>) -> bool {
    &&& outs.len() <= steps.len()
    &&& forall|i: int| 0 <= i < outs.len() ==> steps[i].answers(input_at(payload, outs, i), #[trigger] outs[i])
    &&& forall|i: int| 0 <= i < outs.len() - 1 ==> #[trigger] outs[i] is Continue
}

/// A trace of a finished run: it stopped at a short-circuit, or every step
/// continued.
pub open spec fn is_complete_trace<T, M: MiddleWare<T>>(steps: Seq<M>, payload: T, outs: Seq<Outcome<T, Response>>) -> bool {
    &&& is_trace(steps, payload, outs)
    &&& outs.len() == steps.len() || (outs.len() > 0 && outs.last() is ShortCircuit)
}

/// The outcome of a run whose steps answered `outs`: the last answer, or
/// the payload itself when no step ran.
pub open spec fn trace_result<T>(payload: T, outs: Seq<Outcome<T, Response>>) -> Outcome<T, Response> {
    if outs.len() == 0 {
        Outcome::Continue(payload)
    } else {
        outs.last()
    }
}

/// Runs `steps` in list order on `payload`, each on the payload the one
/// before continued with, and stops at the first short-circuit. Returns the
/// outcome and how many steps were invoked.
pub fn run_chain<T, M: MiddleWare<T>>(steps: &Vec<M>, payload: T) -> (r: (Outcome<T, Response>, usize))
    ensures
        exists|outs: Seq<Outcome<T, Response>>|
            #[trigger] is_complete_trace(steps@, payload, outs) && outs.len() == r.1 && r.0 == trace_result(payload, outs),
        steps.len() == 0 ==> r.0 == Outcome::<T, Response>::Continue(payload) && r.1 == 0,
        r.0 is Continue ==> r.1 == steps.len(),
{
    let ghost start = payload;
    let (mut run, mut action) = ChainRun::start::<T, Response>(steps.len(), payload);
    let mut count: usize = 0;
    let ghost mut outs: Seq<Outcome<T, Response>> = Seq::empty();
    loop
        invariant
            run.len == steps.len(),
            count <= steps.len(),
            outs.len() == count,
            start == payload,
            is_trace(steps@, start, outs),
            action is Invoke ==> {
                &&& run.pending()
                &&& action->Invoke_0 == run.next
                &&& count == run.next
                &&& action->Invoke_1 == input_at(start, outs, count as int)
                &&& count > 0 ==> outs.last() is Continue
            },
            action matches ChainAction::Finish(o) ==> {
                &&& run.finished
                &&& is_complete_trace(steps@, start, outs)
                &&& o == trace_result(start, outs)
            },
        decreases (if action is Finish { 0 } else { run.len - run.next + 1 }),
    {
        match action {
            ChainAction::Invoke(i, p) => {
                let o = steps[i].call(p);
                proof {
                    outs = outs.push(o);
                }
                count = count + 1;
                action = run.resume(o);
            },
            ChainAction::Finish(o) => {
                assert(is_complete_trace(steps@, payload, outs));
                if steps.len() == 0 {
                    assert(outs.len() == 0);
                }
                return (o, count);
            },
        }
    }
}

/// A chain is itself a step: it answers with what the run through its
/// steps ends with.
impl<T, M: MiddleWare<T>> MiddleWare<T> for Vec<M> {
    open spec fn answers(&self, param: T, o: Outcome<T, Response>) -> bool {
        exists|outs: Seq<Outcome<T, Response>>| #[trigger] is_complete_trace(self@, param, outs) && o == trace_result(param, outs)
    }

    fn call(&self, param: T) -> (o: Outcome<T, Response>) {
        run_chain(self, param).0
    }
}

/// When step `k` can only short-circuit, no run goes past it: at most the
/// first `k + 1` steps are invoked.
pub proof fn lemma_trace_stops_at_short_circuit<T, M: MiddleWare<T>>(
    steps: Seq<M>,
    payload: T,
    outs: Seq<Outcome<T, Response>>,
    k: int,
)
    requires
        is_trace(steps, payload, outs),
        0 <= k < steps.len(),
        forall|p: T, o: Outcome<T, Response>| #[trigger] steps[k].answers(p, o) ==> o is ShortCircuit,
    ensures
        outs.len() <= k + 1,
        outs.len() == k + 1 ==> trace_result(payload, outs) is ShortCircuit,
{
    if outs.len() > k + 1 {
        assert(steps[k].answers(input_at(payload, outs, k), outs[k]));
        assert(outs[k] is Continue);
    }
    if outs.len() == k + 1 {
        assert(steps[k].answers(input_at(payload, outs, k), outs[k]));
    }
}

/// Every step of `steps` answers by continuing with its payload unchanged.
pub open spec fn steps_pass_through<T, M: MiddleWare<T>>(steps: Seq<M>) -> bool {
    forall|i: int, p: T, o: Outcome<T, Response>|
        0 <= i < steps.len() && #[trigger] steps[i].answers(p, o) ==> o == Outcome::<T, Response>::Continue(p)
}

proof fn lemma_pass_through_prefix<T, M: MiddleWare<T>>(steps: Seq<M>, payload: T, outs: Seq<Outcome<T, Response>>, j: int)
    requires
        is_trace(steps, payload, outs),
        steps_pass_through(steps),
        0 <= j <= outs.len(),
    ensures
        forall|i: int| 0 <= i < j ==> #[trigger] outs[i] == Outcome::<T, Response>::Continue(payload),
    decreases j,
{
    if j > 0 {
        lemma_pass_through_prefix(steps, payload, outs, j - 1);
        assert(steps[j - 1].answers(input_at(payload, outs, j - 1), outs[j - 1]));
    }
}

/// A run over pass-through steps invokes every step and continues with the
/// payload unchanged, as a run over no steps does.
pub proof fn lemma_trace_pass_through<T, M: MiddleWare<T>>(steps: Seq<M>, payload: T, outs: Seq<Outcome<T, Response>>)
    requires
        is_complete_trace(steps, payload, outs),
        steps_pass_through(steps),
    ensures
        outs.len() == steps.len(),
        trace_result(payload, outs) == Outcome::<T, Response>::Continue(payload),
{
    lemma_pass_through_prefix(steps, payload, outs, outs.len() as int);
    if outs.len() > 0 {
        assert(outs[outs.len() - 1] == Outcome::<T, Response>::Continue(payload));
    }
}

} // verus!
