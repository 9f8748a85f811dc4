//! The machine: a tape, a live state, a stop state, and the run loop that
//! applies a caller-supplied transition function until the live state equals
//! the stop state.

use vstd::prelude::*;
use vstd::std_specs::cmp::PartialEqSpec;

use crate::tape::Action;
use crate::tape::Tape;
use crate::tape::cells_after;
use crate::tape::head_after;

verus! {

/// Relies on std::time::Instant as an opaque reading of the monotonic clock,
/// carried from the start of a run to its end.
#[verifier::external_type_specification]
#[verifier::external_body]
pub struct ExInstant(std::time::Instant);

/// Relies on std::time::Instant::now: a reading of the monotonic clock.
/// Nothing is assumed of the value.
#[verifier::external_body]
fn clock_now() -> std::time::Instant {
    std::time::Instant::now()
}

/// Relies on std::time::Instant::elapsed: the time since `start`.
/// Nothing is assumed of the value.
#[verifier::external_body]
fn clock_elapsed(start: &std::time::Instant) -> std::time::Duration {
    start.elapsed()
}

/// Relies on std::time::Duration::as_micros: the duration in whole
/// microseconds. Nothing is assumed of the value.
#[verifier::external_body]
fn duration_as_micros(d: &std::time::Duration) -> u128 {
    d.as_micros()
}

/// One transition of a machine configuration (state, cells, head) under
/// `rules`: some action that `rules` can return for the configuration's state
/// and scanned symbol takes the tape and the state to the post-configuration.
pub open spec fn machine_step<S, V, F: Fn(&S, &V) -> Action<S, V>>(
    rules: F,
    blank: V,
    pre: (S, Seq<V>, int),
    post: (S, Seq<V>, int),
) -> bool {
    &&& 0 <= pre.2 < pre.1.len()
    &&& exists|a: Action<S, V>|
        {
            &&& #[trigger] call_ensures(rules, (&pre.0, &pre.1[pre.2]), a)
            &&& post.0 == a.2
            &&& post.1 == cells_after(pre.1, pre.2, blank, a.0, a.1)
            &&& post.2 == head_after(pre.1, pre.2, a.1)
        }
}

/// A run trace: every pair of consecutive configurations is related by one
/// machine step under `rules`.
pub open spec fn is_trace<S, V, F: Fn(&S, &V) -> Action<S, V>>(
    rules: F,
    blank: V,
    tr: Seq<(S, Seq<V>, int)>,
) -> bool {
    forall|i: int| 0 <= i < tr.len() - 1 ==> #[trigger] machine_step(rules, blank, tr[i], tr[i + 1])
}

/// A machine: a tape, the live state, the stop state that halts the run, a
/// step counter, and the time the last run took.
pub struct Machine<S, V> {
    state: S,
    stop: S,
    tape: Tape<V>,
    steps: usize,
    elapsed_micros: u128,
}

impl<S, V> Machine<S, V> where S: PartialEq, V: Copy + PartialEq {
    /// The live state.
    pub closed spec fn live_state(&self) -> S {
        self.state
    }

    /// The state that halts the run.
    pub closed spec fn stop_state(&self) -> S {
        self.stop
    }

    /// The machine's tape.
    pub closed spec fn tape_spec(&self) -> Tape<V> {
        self.tape
    }

    /// How many transitions the last run applied.
    pub closed spec fn step_count(&self) -> usize {
        self.steps
    }

    /// How many microseconds the last run took.
    pub closed spec fn elapsed_spec(&self) -> u128 {
        self.elapsed_micros
    }

    /// The machine invariant: its tape is well formed.
    pub open spec fn wf(&self) -> bool {
        self.tape_spec().wf()
    }

    /// Create a new machine: the live state starts as `start`, no steps have
    /// been taken, and no time has elapsed.
    pub fn new(start: S, stop: S, tape: Tape<V>) -> (r: Self)
        ensures
            r.live_state() == start,
            r.stop_state() == stop,
            r.tape_spec() == tape,
            r.step_count() == 0,
            r.elapsed_spec() == 0,
    {
        Self { state: start, stop, tape, steps: 0, elapsed_micros: 0 }
    }

    /// Return the live state.
    pub fn state(&self) -> (r: &S)
        ensures
            *r == self.live_state(),
    {
        &self.state
    }

    /// Return how many transitions the last run applied.
    pub fn steps(&self) -> (r: usize)
        ensures
            r == self.step_count(),
    {
        self.steps
    }

    /// Return how many microseconds the last run took.
    pub fn elapsed_micros(&self) -> (r: u128)
        ensures
            r == self.elapsed_spec(),
    {
        self.elapsed_micros
    }

    /// Return the machine's tape.
    pub fn tape(&self) -> (r: &Tape<V>)
        ensures
            *r == self.tape_spec(),
    {
        &self.tape
    }

    /// Run the machine: as long as the live state differs from the stop
    /// state, read the scanned symbol, apply the action `rules` returns for
    /// the live state and that symbol, and count the step. The check comes
    /// before each step, so a machine already in the stop state takes zero
    /// steps. A run whose step counter reaches usize::MAX stops there with
    /// the machine still unhalted; no feasible run reaches that bound.
    pub fn run<F: Fn(&S, &V) -> Action<S, V>>(&mut self, rules: F)
        requires
            old(self).wf(),
            forall|s: &S, v: &V| #[trigger] call_requires(rules, (s, v)),
        ensures
            final(self).wf(),
            final(self).stop_state() == old(self).stop_state(),
            final(self).tape_spec().blank_sym() == old(self).tape_spec().blank_sym(),
            S::obeys_eq_spec() ==> final(self).live_state().eq_spec(&final(self).stop_state())
                || final(self).step_count() == usize::MAX,
            S::obeys_eq_spec() && old(self).live_state().eq_spec(&old(self).stop_state()) ==> {
                &&& final(self).step_count() == 0
                &&& final(self).live_state() == old(self).live_state()
                &&& final(self).tape_spec().cells() == old(self).tape_spec().cells()
                &&& final(self).tape_spec().head() == old(self).tape_spec().head()
            },
            exists|tr: Seq<(S, Seq<V>, int)>|
                {
                    &&& #[trigger] is_trace(rules, old(self).tape_spec().blank_sym(), tr)
                    &&& tr.len() >= 1
                    &&& tr.first() == (
                        old(self).live_state(),
                        old(self).tape_spec().cells(),
                        old(self).tape_spec().head(),
                    )
                    &&& tr.last() == (
                        final(self).live_state(),
                        final(self).tape_spec().cells(),
                        final(self).tape_spec().head(),
                    )
                    &&& final(self).step_count() == tr.len() - 1
                    &&& S::obeys_eq_spec() ==> forall|i: int|
                        0 <= i < tr.len() - 1 ==> !(#[trigger] tr[i].0).eq_spec(
                            &old(self).stop_state(),
                        )
                },
    {
        let ghost init = *old(self);
        let start_time = clock_now();

        self.steps = 0;

        let ghost blank = self.tape.blank_sym();
        let ghost mut tr: Seq<(S, Seq<V>, int)> = seq![
            (self.state, self.tape.cells(), self.tape.head()),
        ];

        loop
            invariant
                self.wf(),
                self.stop == init.stop,
                self.tape.blank_sym() == blank,
                blank == init.tape.blank_sym(),
                forall|s: &S, v: &V| #[trigger] call_requires(rules, (s, v)),
                tr.len() >= 1,
                tr.first() == (init.state, init.tape.cells(), init.tape.head()),
                tr.last() == (self.state, self.tape.cells(), self.tape.head()),
                is_trace(rules, blank, tr),
                self.steps == tr.len() - 1,
                S::obeys_eq_spec() ==> forall|i: int|
                    0 <= i < tr.len() - 1 ==> !(#[trigger] tr[i].0).eq_spec(&init.stop),
            ensures
                S::obeys_eq_spec() ==> self.state.eq_spec(&self.stop) || self.steps == usize::MAX,
            decreases usize::MAX - self.steps,
        {
            if self.state == self.stop {
                break;
            }
            if self.steps == usize::MAX {
                break;
            }

            let sym = self.tape.current();
            let action = rules(&self.state, &sym);
            let ghost a = action;
            let ghost pre = (self.state, self.tape.cells(), self.tape.head());

            let Action(new_value, dir, new_state) = action;
            self.tape.update(new_value, dir);
            self.state = new_state;
            self.steps = self.steps + 1;

            proof {
                let post = (self.state, self.tape.cells(), self.tape.head());
                assert(machine_step(rules, blank, pre, post)) by {
                    assert(call_ensures(rules, (&pre.0, &pre.1[pre.2]), a));
                    assert(post.1 == cells_after(pre.1, pre.2, blank, a.0, a.1));
                    assert(post.2 == head_after(pre.1, pre.2, a.1));
                }
                let old_tr = tr;
                tr = tr.push(post);
                assert forall|i: int| 0 <= i < tr.len() - 1 implies #[trigger] machine_step(
                    rules,
                    blank,
                    tr[i],
                    tr[i + 1],
                ) by {
                    if i < old_tr.len() - 1 {
                        assert(tr[i] == old_tr[i]);
                        assert(tr[i + 1] == old_tr[i + 1]);
                        assert(machine_step(rules, blank, old_tr[i], old_tr[i + 1]));
                    } else {
                        assert(tr[i] == pre);
                        assert(tr[i + 1] == post);
                    }
                }
                if S::obeys_eq_spec() {
                    let stop = init.stop;
                    assert forall|i: int| 0 <= i < tr.len() - 1 implies !(#[trigger] tr[i].0).eq_spec(
                        &stop,
                    ) by {
                        if i < old_tr.len() - 1 {
                            assert(tr[i] == old_tr[i]);
                        } else {
                            assert(tr[i] == pre);
                            assert(!pre.0.eq_spec(&stop));
                        }
                    }
                }
            }
        }

        let duration = clock_elapsed(&start_time);
        self.elapsed_micros = duration_as_micros(&duration);

        proof {
            if S::obeys_eq_spec() && init.state.eq_spec(&init.stop) {
                if tr.len() > 1 {
                    assert(!tr[0].0.eq_spec(&init.stop));
                    assert(tr[0] == tr.first());
                    assert(false);
                }
                assert(tr.first() == tr.last());
            }
            assert(is_trace(rules, old(self).tape_spec().blank_sym(), tr));
        }
    }
}

} // verus!
