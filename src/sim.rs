//! The cooperative multi-testbench scheduler. Each testbench is a state
//! machine that the scheduler resumes while it alone holds the circuit.

use crate::block::{check_connected, converge, simulate, unconnected_paths, Block};
use vstd::prelude::*;

verus! {

/// Where a testbench stands.
#[derive(Clone, Copy, Debug, PartialEq, Eq, Structural)]
pub enum EndpointState {
    /// Waits for its first hold of the circuit.
    AwaitingInit,
    /// Holds the circuit.
    Running,
    /// Waits until simulated time reaches the value.
    AwaitingTime(u64),
    /// Waits until its predicate holds of the circuit.
    AwaitingPredicate,
    /// Finished; it never holds the circuit again.
    Done,
    /// Stopped because another testbench failed.
    Aborted,
}

/// What a testbench asks for when it hands the circuit back.
#[derive(Clone, Copy, Debug, PartialEq, Eq, Structural)]
pub enum Action {
    /// Resume me once simulated time reaches the value.
    Wait(u64),
    /// Resume me once my predicate holds of the circuit.
    Watch,
    /// I am finished.
    Done,
    /// My own check failed: stop the run.
    Fail,
}

/// Why a run stopped early.
#[derive(Clone, Debug, PartialEq, Eq)]
pub enum SimError {
    /// These atoms are not connected; the design may not be simulated.
    StructuralError { unconnected: Vec<String> },
    /// The logic did not settle within the pass ceiling at this time.
    ConvergenceFailure { time: u64 },
    /// The tick ceiling was reached; these endpoints were still waiting.
    Timeout { time: u64, pending: Vec<(usize, EndpointState)> },
    /// This endpoint reported a failure at this time.
    ScriptFailed { endpoint: usize, time: u64 },
}

/// A test script, written as a state machine over the circuit.
pub trait Testbench<C> {
    /// Runs the script on the circuit at simulated time `time` until it
    /// hands the circuit back.
    fn resume(&mut self, circuit: &mut C, time: u64) -> Action;

    /// The predicate of the script's last `Watch`.
    fn ready(&self, circuit: &C) -> bool;
}

/// A stimulus applied to the circuit at every multiple of its period, such
/// as a clock toggler.
pub trait Stimulus<C> {
    fn apply(&mut self, circuit: &mut C);
}

/// Whether an endpoint in state `s` is to be resumed at time `now`, where
/// `pred` is the value of its predicate on the circuit.
pub open spec fn is_ready(s: EndpointState, now: u64, pred: bool) -> bool {
    match s {
        EndpointState::AwaitingInit => true,
        EndpointState::AwaitingTime(t) => t <= now,
        EndpointState::AwaitingPredicate => pred,
        _ => false,
    }
}

/// The state an endpoint enters by handing the circuit back with `a`.
pub open spec fn state_after(a: Action) -> EndpointState {
    match a {
        Action::Wait(t) => EndpointState::AwaitingTime(t),
        Action::Watch => EndpointState::AwaitingPredicate,
        Action::Done => EndpointState::Done,
        Action::Fail => EndpointState::Aborted,
    }
}

pub fn next_state(a: Action) -> (r: EndpointState)
    ensures
        r == state_after(a),
{
    match a {
        Action::Wait(t) => EndpointState::AwaitingTime(t),
        Action::Watch => EndpointState::AwaitingPredicate,
        Action::Done => EndpointState::Done,
        Action::Fail => EndpointState::Aborted,
    }
}

/// One hold of the circuit: by endpoint `holder` at `time`, or by the
/// scheduler, which applies the stimuli and lets the logic settle, when
/// `holder` is the number of endpoints. For an endpoint,
/// `action` is what it returned when resumed with the circuit and that time,
/// and is absent when its predicate was examined and found false.
pub struct Access {
    pub time: int,
    pub holder: int,
    pub action: Option<Action>,
}

/// The (time, holder) positions that a dispatch at `time` visits among the
/// first `k` endpoints in states `states`: those ready by init, by time, or
/// waiting on a predicate, in registration order.
pub open spec fn dispatch_positions(states: Seq<EndpointState>, time: u64, k: nat) -> Seq<(int, int)>
    decreases k,
{
    if k == 0 {
        Seq::empty()
    } else {
        let prev = dispatch_positions(states, time, (k - 1) as nat);
        if is_ready(states[k - 1], time, true) {
            prev.push((time as int, k - 1))
        } else {
            prev
        }
    }
}

pub open spec fn position(a: Access) -> (int, int) {
    (a.time, a.holder)
}

/// What the holds `added`, made by a dispatch from `before` to `after`, say
/// of each endpoint: one ready by init or by time was resumed; a resumed
/// endpoint is in the state its action asks for and did not fail; one
/// whose predicate was false is left as it was.
pub open spec fn holds_explain(added: Seq<Access>, before: Seq<EndpointState>, after: Seq<EndpointState>, time: u64) -> bool {
    forall|k: int| 0 <= k < added.len() ==> {
        let e = #[trigger] added[k];
        &&& 0 <= e.holder < before.len()
        &&& is_ready(before[e.holder], time, false) ==> e.action is Some
        &&& e.action matches Some(a) ==> a != Action::Fail && after[e.holder] == state_after(a)
        &&& e.action is None ==> after[e.holder] == before[e.holder]
    }
}

/// Every endpoint has finished or was aborted, and `e` was aborted.
pub open spec fn stopped_by(states: Seq<EndpointState>, e: int) -> bool {
    &&& 0 <= e < states.len()
    &&& states[e] == EndpointState::Aborted
    &&& forall|i: int| 0 <= i < states.len() ==> #[trigger] states[i] == EndpointState::Done || states[i] == EndpointState::Aborted
}

/// `a` came strictly before the position (`time`, `holder`).
pub open spec fn before(a: Access, time: int, holder: int) -> bool {
    a.time < time || (a.time == time && a.holder < holder)
}

/// Holds of the circuit are totally ordered: one holder at a time, each
/// endpoint at most once per tick and in registration order, and the
/// stimuli after the endpoints of their tick.
pub open spec fn serialized(log: Seq<Access>) -> bool {
    forall|i: int, j: int| 0 <= i < j < log.len() ==> before(#[trigger] log[i], log[j].time, #[trigger] log[j].holder)
}

/// Owns the testbenches, the stimuli and simulated time.
pub struct Simulation<S, K> {
    pub scripts: Vec<S>,
    pub states: Vec<EndpointState>,
    pub periods: Vec<u64>,
    pub stimuli: Vec<K>,
    pub time: u64,
    pub max_iters: usize,
    pub accesses: Ghost<Seq<Access>>,
}

/// Default ceiling on evaluation passes per tick.
pub const DEFAULT_MAX_ITERS: usize = 100;

impl<S, K> Simulation<S, K> {
    pub open spec fn wf(&self) -> bool {
        &&& self.states@.len() == self.scripts@.len()
        &&& self.periods@.len() == self.stimuli@.len()
        &&& forall|k: int| 0 <= k < self.periods@.len() ==> self.periods@[k] > 0
    }

    /// Every hold so far is serialized and came before position (`time`, `holder`).
    pub open spec fn log_before(&self, time: int, holder: int) -> bool {
        &&& serialized(self.accesses@)
        &&& forall|k: int| 0 <= k < self.accesses@.len() ==> before(#[trigger] self.accesses@[k], time, holder)
    }

    /// Whether every endpoint has finished.
    pub fn all_done(&self) -> (r: bool)
        ensures
            r == (forall|i: int| 0 <= i < self.states@.len() ==> self.states@[i] == EndpointState::Done),
    {
        let mut i: usize = 0;
        while i < self.states.len()
            invariant
                i <= self.states@.len(),
                forall|j: int| 0 <= j < i ==> self.states@[j] == EndpointState::Done,
            decreases self.states@.len() - i,
        {
            if self.states[i] != EndpointState::Done {
                return false;
            }
            i = i + 1;
        }
        true
    }

    /// The endpoints that have not finished, with their states.
    pub fn pending(&self) -> (r: Vec<(usize, EndpointState)>)
        ensures
            forall|k: int| 0 <= k < r@.len() ==> {
                let (i, st) = #[trigger] r@[k];
                &&& i < self.states@.len()
                &&& st == self.states@[i as int]
                &&& st != EndpointState::Done
            },
            forall|i: int| 0 <= i < self.states@.len() && self.states@[i] != EndpointState::Done
                ==> exists|k: int| 0 <= k < r@.len() && #[trigger] r@[k] == (i as usize, self.states@[i]),
            (exists|i: int| 0 <= i < self.states@.len() && self.states@[i] != EndpointState::Done) ==> r@.len() > 0,
    {
        let mut r: Vec<(usize, EndpointState)> = Vec::new();
        let mut i: usize = 0;
        while i < self.states.len()
            invariant
                i <= self.states@.len(),
                forall|k: int| 0 <= k < r@.len() ==> {
                    let (j, st) = #[trigger] r@[k];
                    &&& j < self.states@.len()
                    &&& st == self.states@[j as int]
                    &&& st != EndpointState::Done
                },
                (exists|j: int| 0 <= j < i && self.states@[j] != EndpointState::Done) ==> r@.len() > 0,
                forall|j: int| 0 <= j < i && self.states@[j] != EndpointState::Done
                    ==> exists|k: int| 0 <= k < r@.len() && #[trigger] r@[k] == (j as usize, self.states@[j]),
            decreases self.states@.len() - i,
        {
            let st = self.states[i];
            if st != EndpointState::Done {
                let ghost r0 = r@;
                r.push((i, st));
                proof {
                    assert forall|j: int| 0 <= j <= i && self.states@[j] != EndpointState::Done
                        implies exists|k: int| 0 <= k < r@.len() && #[trigger] r@[k] == (j as usize, self.states@[j]) by {
                        if j < i {
                            let k0 = choose|k: int| 0 <= k < r0.len() && #[trigger] r0[k] == (j as usize, self.states@[j]);
                            assert(r@[k0] == r0[k0]);
                        } else {
                            assert(r@[r0.len() as int] == (j as usize, self.states@[j]));
                        }
                    }
                }
            }
            i = i + 1;
        }
        r
    }

    /// Marks every endpoint that has not finished as aborted.
    fn abort_all(&mut self)
        requires
            old(self).wf(),
        ensures
            final(self).wf(),
            final(self).scripts@ == old(self).scripts@,
            final(self).stimuli@ == old(self).stimuli@,
            final(self).periods@ == old(self).periods@,
            final(self).time == old(self).time,
            final(self).accesses == old(self).accesses,
            final(self).max_iters == old(self).max_iters,
            final(self).states@.len() == old(self).states@.len(),
            forall|i: int| 0 <= i < final(self).states@.len() ==> #[trigger] final(self).states@[i] == if old(self).states@[i] == EndpointState::Done {
                EndpointState::Done
            } else {
                EndpointState::Aborted
            },
    {
        let mut i: usize = 0;
        while i < self.states.len()
            invariant
                self.wf(),
                i <= self.states@.len(),
                self.scripts@ == old(self).scripts@,
                self.stimuli@ == old(self).stimuli@,
                self.periods@ == old(self).periods@,
                self.time == old(self).time,
                self.accesses == old(self).accesses,
                self.max_iters == old(self).max_iters,
                self.states@.len() == old(self).states@.len(),
                forall|j: int| 0 <= j < i ==> #[trigger] self.states@[j] == if old(self).states@[j] == EndpointState::Done {
                    EndpointState::Done
                } else {
                    EndpointState::Aborted
                },
                forall|j: int| i <= j < self.states@.len() ==> #[trigger] self.states@[j] == old(self).states@[j],
            decreases self.states@.len() - i,
        {
            if self.states[i] != EndpointState::Done {
                self.states.set(i, EndpointState::Aborted);
            }
            i = i + 1;
        }
    }

    /// Hands the circuit, in registration order, to every endpoint that is
    /// ready at the current time, and takes it back before the next one.
    pub fn dispatch<C>(&mut self, circuit: &mut C) -> (r: Result<(), SimError>)
        where
            S: Testbench<C>,
        requires
            old(self).wf(),
            old(self).log_before(old(self).time as int, 0),
        ensures
            final(self).wf(),
            final(self).scripts@.len() == old(self).scripts@.len(),
            final(self).stimuli@ == old(self).stimuli@,
            final(self).periods@ == old(self).periods@,
            final(self).time == old(self).time,
            final(self).max_iters == old(self).max_iters,
            final(self).log_before(old(self).time as int, old(self).scripts@.len() as int),
            final(self).accesses@.len() >= old(self).accesses@.len(),
            final(self).accesses@.take(old(self).accesses@.len() as int) == old(self).accesses@,
            r is Ok ==> ({
                let added = final(self).accesses@.skip(old(self).accesses@.len() as int);
                &&& added.map_values(|a: Access| position(a)) == dispatch_positions(old(self).states@, old(self).time, old(self).states@.len() as nat)
                &&& holds_explain(added, old(self).states@, final(self).states@, old(self).time)
            }),
            r is Ok ==> forall|i: int| 0 <= i < final(self).states@.len() && !is_ready(old(self).states@[i], old(self).time, true)
                ==> #[trigger] final(self).states@[i] == old(self).states@[i],
            r matches Err(e) ==> e matches SimError::ScriptFailed { endpoint, time } && time == old(self).time
                && stopped_by(final(self).states@, endpoint as int),
    {
        let n = self.scripts.len();
        let mut i: usize = 0;
        let ghost base = self.accesses@;
        proof {
            assert(self.accesses@.skip(base.len() as int).map_values(|a: Access| position(a)) =~= dispatch_positions(old(self).states@, self.time, 0));
        }
        while i < n
            invariant
                self.wf(),
                n == self.scripts@.len(),
                n == old(self).scripts@.len(),
                n == old(self).states@.len(),
                i <= n,
                self.stimuli@ == old(self).stimuli@,
                self.periods@ == old(self).periods@,
                self.time == old(self).time,
                self.max_iters == old(self).max_iters,
                base == old(self).accesses@,
                self.accesses@.len() >= base.len(),
                self.accesses@.take(base.len() as int) == base,
                self.log_before(self.time as int, i as int),
                self.accesses@.skip(base.len() as int).map_values(|a: Access| position(a)) == dispatch_positions(old(self).states@, self.time, i as nat),
                holds_explain(self.accesses@.skip(base.len() as int), old(self).states@, self.states@, self.time),
                forall|k: int| 0 <= k < self.accesses@.skip(base.len() as int).len() ==> #[trigger] self.accesses@.skip(base.len() as int)[k].holder < i,
                forall|j: int| 0 <= j < n && (j >= i || !is_ready(old(self).states@[j], self.time, true)) ==> #[trigger] self.states@[j] == old(self).states@[j],
            decreases n - i,
        {
            let st = self.states[i];
            let go = match st {
                EndpointState::AwaitingInit => true,
                EndpointState::AwaitingTime(t) => t <= self.time,
                EndpointState::AwaitingPredicate => true,
                _ => false,
            };
            if go {
                let wake = match st {
                    EndpointState::AwaitingPredicate => self.scripts[i].ready(circuit),
                    _ => true,
                };
                let ghost log0 = self.accesses@;
                let ghost states0 = self.states@;
                proof {
                    assert(holds_explain(log0.skip(base.len() as int), old(self).states@, states0, self.time));
                    assert(old(self).states@.len() == n);
                }
                if wake {
                    self.states.set(i, EndpointState::Running);
                    let a = self.scripts[i].resume(circuit, self.time);
                    self.states.set(i, next_state(a));
                    self.accesses = Ghost(log0.push(Access { time: self.time as int, holder: i as int, action: Some(a) }));
                    if a == Action::Fail {
                        proof { assert(self.accesses@.take(base.len() as int) =~= base); }
                        self.abort_all();
                        return Err(SimError::ScriptFailed { endpoint: i, time: self.time });
                    }
                } else {
                    self.accesses = Ghost(log0.push(Access { time: self.time as int, holder: i as int, action: None }));
                }
                proof {
                    let added0 = log0.skip(base.len() as int);
                    let added = self.accesses@.skip(base.len() as int);
                    assert(added =~= added0.push(self.accesses@.last()));
                    assert(added.map_values(|a: Access| position(a)) =~= added0.map_values(|a: Access| position(a)).push((self.time as int, i as int)));
                    assert(self.accesses@.take(base.len() as int) =~= base);
                    assert forall|k: int| 0 <= k < added.len() implies {
                        let e = #[trigger] added[k];
                        &&& 0 <= e.holder < old(self).states@.len()
                        &&& is_ready(old(self).states@[e.holder], self.time, false) ==> e.action is Some
                        &&& e.action matches Some(a) ==> a != Action::Fail && self.states@[e.holder] == state_after(a)
                        &&& e.action is None ==> self.states@[e.holder] == old(self).states@[e.holder]
                    } by {
                        if k < added0.len() {
                            assert(added[k] == added0[k]);
                            let e0 = added0[k];
                            let h = e0.holder;
                            assert(h < i);
                            assert(self.states@[h] == states0[h]);
                        } else {
                            assert(added[k] == self.accesses@.last());
                            assert(added[k].holder == i);
                            assert(old(self).states@[i as int] == st);
                        }
                    }
                }
            } else {
                proof {
                    assert(dispatch_positions(old(self).states@, self.time, (i + 1) as nat) == dispatch_positions(old(self).states@, self.time, i as nat));
                }
            }
            i = i + 1;
        }
        proof {
            assert(dispatch_positions(old(self).states@, self.time, i as nat) == dispatch_positions(old(self).states@, old(self).time, old(self).states@.len() as nat));
        }
        Ok(())
    }

    /// Lets the logic settle after the stimuli of a tick, then advances time
    /// by one tick. Fails, with the tick's time, where the circuit does not
    /// settle within `max_iters` passes.
    pub fn settle<C: Block>(&mut self, circuit: &mut C) -> (r: Result<(), SimError>)
        requires
            old(self).time < u64::MAX,
        ensures
            final(self).scripts == old(self).scripts,
            final(self).states == old(self).states,
            final(self).stimuli == old(self).stimuli,
            final(self).periods == old(self).periods,
            final(self).accesses == old(self).accesses,
            final(self).max_iters == old(self).max_iters,
            final(circuit).model() == converge::<C>(old(circuit).model(), old(self).max_iters as nat).0,
            r is Ok <==> converge::<C>(old(circuit).model(), old(self).max_iters as nat).1,
            r is Ok ==> final(self).time == old(self).time + 1,
            r is Err ==> final(self).time == old(self).time && r == Err::<(), SimError>(SimError::ConvergenceFailure { time: old(self).time }),
    {
        if !simulate(circuit, self.max_iters) {
            return Err(SimError::ConvergenceFailure { time: self.time });
        }
        self.time = self.time + 1;
        Ok(())
    }

    /// Applies every stimulus whose period divides the current time.
    pub fn apply_stimuli<C>(&mut self, circuit: &mut C)
        where
            K: Stimulus<C>,
        requires
            old(self).wf(),
        ensures
            final(self).wf(),
            final(self).scripts == old(self).scripts,
            final(self).states == old(self).states,
            final(self).stimuli@.len() == old(self).stimuli@.len(),
            final(self).periods == old(self).periods,
            final(self).accesses == old(self).accesses,
            final(self).max_iters == old(self).max_iters,
            final(self).time == old(self).time,
    {
        let mut k: usize = 0;
        while k < self.stimuli.len()
            invariant
                self.wf(),
                k <= self.stimuli@.len(),
                self.scripts == old(self).scripts,
                self.states == old(self).states,
                self.stimuli@.len() == old(self).stimuli@.len(),
                self.periods == old(self).periods,
                self.accesses == old(self).accesses,
                self.max_iters == old(self).max_iters,
                self.time == old(self).time,
            decreases self.stimuli@.len() - k,
        {
            if self.time % self.periods[k] == 0 {
                self.stimuli[k].apply(circuit);
            }
            k = k + 1;
        }
    }

    /// Runs the simulation: dispatches the endpoints, then tick by tick
    /// applies the stimuli, lets the logic settle, advances time and
    /// dispatches again, until every endpoint is done.
    pub fn run<C: Block>(&mut self, circuit: &mut C, max_time: u64) -> (r: Result<(), SimError>)
        where
            S: Testbench<C>,
            K: Stimulus<C>,
        requires
            old(self).wf(),
            old(self).log_before(old(self).time as int, 0),
        ensures
            final(self).wf(),
            serialized(final(self).accesses@),
            r is Ok ==> forall|i: int| 0 <= i < final(self).states@.len() ==> #[trigger] final(self).states@[i] == EndpointState::Done,
            old(self).scripts@.len() == 0 && unconnected_paths(old(circuit).atoms("uut"@)).len() == 0 ==> r is Ok,
            r matches Err(SimError::Timeout { time, pending }) ==> time >= max_time && pending@.len() > 0,
            (r matches Err(SimError::StructuralError { .. })) == (unconnected_paths(old(circuit).atoms("uut"@)).len() > 0),
            r matches Err(SimError::StructuralError { unconnected }) ==> unconnected@.map_values(|s: String| s@) == unconnected_paths(old(circuit).atoms("uut"@)),
            r matches Err(SimError::ScriptFailed { endpoint, time }) ==> stopped_by(final(self).states@, endpoint as int) && time == final(self).time,
            r matches Err(SimError::ConvergenceFailure { time }) ==> time == final(self).time && time < max_time
                && exists|m: C::Model| #[trigger] converge::<C>(m, old(self).max_iters as nat) == (final(circuit).model(), false),
    {
        let missing = check_connected(circuit);
        if missing.len() > 0 {
            return Err(SimError::StructuralError { unconnected: missing });
        }
        proof {
            assert(missing@.map_values(|s: String| s@).len() == 0);
        }
        let n = self.scripts.len();
        let d = self.dispatch(circuit);
        if d.is_err() {
            return d;
        }
        if self.time > max_time {
            if self.all_done() {
                return Ok(());
            }
            return Err(SimError::Timeout { time: self.time, pending: self.pending() });
        }
        loop
            invariant
                self.wf(),
                unconnected_paths(old(circuit).atoms("uut"@)).len() == 0,
                self.time <= max_time,
                n == self.scripts@.len(),
                n == old(self).scripts@.len(),
                self.max_iters == old(self).max_iters,
                self.log_before(self.time as int, n as int),
            decreases max_time - self.time,
        {
            if self.all_done() {
                return Ok(());
            }
            if self.time >= max_time {
                return Err(SimError::Timeout { time: self.time, pending: self.pending() });
            }
            let ghost log0 = self.accesses@;
            self.accesses = Ghost(log0.push(Access { time: self.time as int, holder: n as int, action: None }));
            self.apply_stimuli(circuit);
            let ghost m = circuit.model();
            let s = self.settle(circuit);
            if s.is_err() {
                proof { assert(converge::<C>(m, old(self).max_iters as nat) == (circuit.model(), false)); }
                return s;
            }
            let d = self.dispatch(circuit);
            if d.is_err() {
                return d;
            }
        }
    }

    pub fn new() -> (r: Self)
        ensures
            r.wf(),
            r.scripts@.len() == 0,
            r.stimuli@.len() == 0,
            r.time == 0,
            r.max_iters == DEFAULT_MAX_ITERS,
            r.accesses@ == Seq::<Access>::empty(),
    {
        Simulation {
            scripts: Vec::new(),
            states: Vec::new(),
            periods: Vec::new(),
            stimuli: Vec::new(),
            time: 0,
            max_iters: DEFAULT_MAX_ITERS,
            accesses: Ghost(Seq::empty()),
        }
    }

    /// Registers a testbench; it first holds the circuit at the first dispatch.
    pub fn add_testbench(&mut self, s: S) -> (r: usize)
        requires
            old(self).wf(),
        ensures
            final(self).wf(),
            r == old(self).scripts@.len(),
            final(self).scripts@ == old(self).scripts@.push(s),
            final(self).states@ == old(self).states@.push(EndpointState::AwaitingInit),
            final(self).stimuli@ == old(self).stimuli@,
            final(self).periods@ == old(self).periods@,
            final(self).time == old(self).time,
            final(self).accesses == old(self).accesses,
            final(self).max_iters == old(self).max_iters,
    {
        let n = self.scripts.len();
        self.scripts.push(s);
        self.states.push(EndpointState::AwaitingInit);
        n
    }

    /// Registers a stimulus applied at every multiple of `period`.
    pub fn add_clock(&mut self, period: u64, k: K)
        requires
            old(self).wf(),
            period > 0,
        ensures
            final(self).wf(),
            final(self).stimuli@ == old(self).stimuli@.push(k),
            final(self).periods@ == old(self).periods@.push(period),
            final(self).scripts@ == old(self).scripts@,
            final(self).states@ == old(self).states@,
            final(self).time == old(self).time,
            final(self).accesses == old(self).accesses,
            final(self).max_iters == old(self).max_iters,
    {
        self.periods.push(period);
        self.stimuli.push(k);
    }
}

} // verus!
