use vstd::prelude::*;

use crate::lifecycle::{
    lemma_pop_last, lemma_pop_resumes, lemma_push_pauses_then_starts, lemma_running_iff_nonempty,
    lemma_stops_remove, lemma_stops_unfold, lemma_switch_stops_then_starts,
};
use crate::state::{after_tick, keeps_running, resolve, run_steps, stops, State, Trans};

verus! {

/// The engine: a stack of owned states (last = top = active) and a running
/// flag. While running the stack is never empty.
pub struct StateMachine<S> {
    running: bool,
    state_stack: Vec<S>,
}

impl<S> StateMachine<S> {
    /// The states on the stack, bottom first.
    pub closed spec fn states(&self) -> Seq<S> {
        self.state_stack@
    }

    /// Whether the machine runs.
    pub closed spec fn running(&self) -> bool {
        self.running
    }

    /// The machine's invariant: a running machine has a state on top.
    pub open spec fn wf(&self) -> bool {
        self.running() ==> self.states().len() > 0
    }

    /// A machine that holds `initial_state` alone and has not started.
    pub fn new(initial_state: S) -> (sm: Self)
        ensures
            sm.states() == seq![initial_state],
            !sm.running(),
            sm.wf(),
    {
        let mut state_stack: Vec<S> = Vec::new();
        state_stack.push(initial_state);
        proof {
            assert(state_stack@ =~= seq![initial_state]);
        }
        StateMachine { running: false, state_stack }
    }

    /// Whether the machine runs.
    pub fn is_running(&self) -> (b: bool)
        ensures
            b == self.running(),
    {
        self.running
    }

    /// Starts the top state and sets the machine running. Does nothing on a
    /// machine that runs, or that has stopped and holds no state.
    pub fn start<M, R>(&mut self, m: &mut M, r: &R) where S: State<M, R>
        requires
            old(self).wf(),
        ensures
            final(self).wf(),
            (if !old(self).running() && old(self).states().len() > 0 {
                let n = old(self).states().len();
                let p = old(self).states().last().start_spec(*old(m), *r);
                &&& final(self).states() == old(self).states().update(n - 1, p.0)
                &&& *final(m) == p.1
                &&& final(self).running()
            } else {
                *final(self) == *old(self) && *final(m) == *old(m)
            }),
    {
        let ghost before = self.state_stack@;
        if !self.running && self.state_stack.len() > 0 {
            if let Some(mut state) = self.state_stack.pop() {
                state.on_start(m, r);
                self.state_stack.push(state);
                self.running = true;
                proof {
                    assert(self.state_stack@ =~= before.update(before.len() - 1, state));
                }
            }
        }
    }

    /// Runs `handle_events` on the top state and resolves the request it returns. Does
    /// nothing while the machine does not run.
    pub fn handle_events<M, R>(&mut self, m: &mut M, r: &R) where S: State<M, R>
        requires
            old(self).wf(),
        ensures
            final(self).wf(),
            old(self).running() ==> (final(self).states(), *final(m), final(self).running())
                == after_tick(old(self).states(), old(self).states().last().events_spec(*old(m), *r), *r),
            old(self).running() ==> (final(self).running() <==> final(self).states().len() > 0),
            !old(self).running() ==> *final(self) == *old(self) && *final(m) == *old(m),
    {
        if self.running {
            let ghost before = self.state_stack@;
            let trans = match self.state_stack.pop() {
                Some(mut state) => {
                    let t = state.handle_events(m, r);
                    self.state_stack.push(state);
                    proof {
                        assert(self.state_stack@ =~= before.update(before.len() - 1, state));
                    }
                    t
                },
                None => Trans::Stay,
            };
            self.transition(trans, m, r);
        }
    }

    /// Runs `fixed_update` on the top state and resolves the request it returns. Does
    /// nothing while the machine does not run.
    pub fn fixed_update<M, R>(&mut self, m: &mut M, r: &R) where S: State<M, R>
        requires
            old(self).wf(),
        ensures
            final(self).wf(),
            old(self).running() ==> (final(self).states(), *final(m), final(self).running())
                == after_tick(old(self).states(), old(self).states().last().fixed_update_spec(*old(m), *r), *r),
            old(self).running() ==> (final(self).running() <==> final(self).states().len() > 0),
            !old(self).running() ==> *final(self) == *old(self) && *final(m) == *old(m),
    {
        if self.running {
            let ghost before = self.state_stack@;
            let trans = match self.state_stack.pop() {
                Some(mut state) => {
                    let t = state.fixed_update(m, r);
                    self.state_stack.push(state);
                    proof {
                        assert(self.state_stack@ =~= before.update(before.len() - 1, state));
                    }
                    t
                },
                None => Trans::Stay,
            };
            self.transition(trans, m, r);
        }
    }

    /// Runs `update` on the top state and resolves the request it returns. Does
    /// nothing while the machine does not run.
    pub fn update<M, R>(&mut self, m: &mut M, r: &R) where S: State<M, R>
        requires
            old(self).wf(),
        ensures
            final(self).wf(),
            old(self).running() ==> (final(self).states(), *final(m), final(self).running())
                == after_tick(old(self).states(), old(self).states().last().update_spec(*old(m), *r), *r),
            old(self).running() ==> (final(self).running() <==> final(self).states().len() > 0),
            !old(self).running() ==> *final(self) == *old(self) && *final(m) == *old(m),
    {
        if self.running {
            let ghost before = self.state_stack@;
            let trans = match self.state_stack.pop() {
                Some(mut state) => {
                    let t = state.update(m, r);
                    self.state_stack.push(state);
                    proof {
                        assert(self.state_stack@ =~= before.update(before.len() - 1, state));
                    }
                    t
                },
                None => Trans::Stay,
            };
            self.transition(trans, m, r);
        }
    }

    /// Resolves a request of the top state while the machine runs.
    fn transition<M, R>(&mut self, request: Trans<S>, m: &mut M, r: &R) where S: State<M, R>
        requires
            old(self).running(),
            old(self).wf(),
        ensures
            (final(self).states(), *final(m)) == resolve(request, old(self).states(), *old(m), *r),
            final(self).running() == keeps_running(request, old(self).states().len()),
            final(self).wf(),
            final(self).running() <==> final(self).states().len() > 0,
    {
        proof {
            lemma_running_iff_nonempty(request, self.state_stack@, *m, *r);
        }
        match request {
            Trans::Stay => {},
            Trans::Pop => self.pop(m, r),
            Trans::Push(state) => self.push(state, m, r),
            Trans::Switch(state) => self.switch(state, m, r),
            Trans::Quit => self.stop(m, r),
        }
    }

    /// Stops and removes the top state, then resumes the one below; halts
    /// the machine when none is left.
    fn pop<M, R>(&mut self, m: &mut M, r: &R) where S: State<M, R>
        requires
            old(self).running(),
            old(self).wf(),
        ensures
            (final(self).states(), *final(m)) == resolve(Trans::<S>::Pop, old(self).states(), *old(m), *r),
            final(self).running() == keeps_running(Trans::<S>::Pop, old(self).states().len()),
    {
        let ghost s0 = self.state_stack@;
        let ghost m0 = *m;
        proof {
            if s0.len() == 1 {
                lemma_pop_last(s0, m0, *r);
            } else {
                lemma_pop_resumes(s0, m0, *r);
            }
        }
        if let Some(mut state) = self.state_stack.pop() {
            state.on_stop(m, r);
        }
        let ghost s1 = self.state_stack@;
        if let Some(mut state) = self.state_stack.pop() {
            state.on_resume(m, r);
            self.state_stack.push(state);
            proof {
                assert(self.state_stack@ =~= s1.update(s1.len() - 1, state));
            }
        } else {
            self.running = false;
        }
    }

    /// Pauses the top state and starts `state` above it.
    fn push<M, R>(&mut self, state: S, m: &mut M, r: &R) where S: State<M, R>
        requires
            old(self).running(),
            old(self).wf(),
        ensures
            (final(self).states(), *final(m)) == resolve(Trans::Push(state), old(self).states(), *old(m), *r),
            final(self).running(),
    {
        let ghost s0 = self.state_stack@;
        proof {
            lemma_push_pauses_then_starts(state, s0, *m, *r);
        }
        if let Some(mut top) = self.state_stack.pop() {
            top.on_pause(m, r);
            self.state_stack.push(top);
            proof {
                assert(self.state_stack@ =~= s0.update(s0.len() - 1, top));
            }
        }
        let mut state = state;
        state.on_start(m, r);
        self.state_stack.push(state);
    }

    /// Stops and removes the top state and starts `state` in its place.
    fn switch<M, R>(&mut self, state: S, m: &mut M, r: &R) where S: State<M, R>
        requires
            old(self).running(),
            old(self).wf(),
        ensures
            (final(self).states(), *final(m)) == resolve(Trans::Switch(state), old(self).states(), *old(m), *r),
            final(self).running(),
    {
        proof {
            lemma_switch_stops_then_starts(state, self.state_stack@, *m, *r);
        }
        if let Some(mut top) = self.state_stack.pop() {
            top.on_stop(m, r);
        }
        let mut state = state;
        state.on_start(m, r);
        self.state_stack.push(state);
    }

    /// Stops every state, top to bottom, and halts the machine.
    fn stop<M, R>(&mut self, m: &mut M, r: &R) where S: State<M, R>
        requires
            old(self).running(),
        ensures
            (final(self).states(), *final(m)) == resolve(Trans::<S>::Quit, old(self).states(), *old(m), *r),
            !final(self).running(),
    {
        let ghost goal = resolve(Trans::<S>::Quit, self.state_stack@, *m, *r);
        while self.state_stack.len() > 0
            invariant
                run_steps(stops(self.state_stack@.len()), self.state_stack@, *m, *r) == goal,
            decreases self.state_stack@.len(),
        {
            proof {
                lemma_stops_unfold(self.state_stack@.len(), self.state_stack@, *m, *r);
            }
            if let Some(mut state) = self.state_stack.pop() {
                state.on_stop(m, r);
            }
        }
        proof {
            lemma_stops_remove(0, self.state_stack@, *m, *r);
        }
        self.running = false;
    }
}

} // verus!
