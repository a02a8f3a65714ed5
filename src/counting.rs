use vstd::prelude::*;

use crate::machine::StateMachine;
use crate::state::{State, Trans};

verus! {

/// A state that adds the read-only context to the accumulator whenever it
/// becomes active, pushes a fresh copy of itself on every variable tick and
/// pops itself on every fixed tick.
pub struct Test;

/// A machine of [`Test`] states over an accumulator and an addend.
pub type TestStateMachine = StateMachine<Test>;

impl State<isize, isize> for Test {
    open spec fn start_spec(self, a: isize, b: isize) -> (Test, isize) {
        (Test, a.wrapping_add(b))
    }

    open spec fn stop_spec(self, a: isize, b: isize) -> isize {
        a
    }

    open spec fn pause_spec(self, a: isize, b: isize) -> (Test, isize) {
        (Test, a)
    }

    open spec fn resume_spec(self, a: isize, b: isize) -> (Test, isize) {
        self.start_spec(a, b)
    }

    open spec fn events_spec(self, a: isize, b: isize) -> (Test, isize, Trans<Test>) {
        (Test, a, Trans::Stay)
    }

    open spec fn fixed_update_spec(self, a: isize, b: isize) -> (Test, isize, Trans<Test>) {
        (Test, a, Trans::Pop)
    }

    open spec fn update_spec(self, a: isize, b: isize) -> (Test, isize, Trans<Test>) {
        (Test, a, Trans::Push(Test))
    }

    fn on_start(&mut self, a: &mut isize, b: &isize) {
        *a = a.wrapping_add(*b);
    }

    fn on_stop(&mut self, a: &mut isize, b: &isize) {
    }

    fn on_pause(&mut self, a: &mut isize, b: &isize) {
    }

    fn on_resume(&mut self, a: &mut isize, b: &isize) {
        self.on_start(a, b);
    }

    fn handle_events(&mut self, a: &mut isize, b: &isize) -> (t: Trans<Test>) {
        Trans::Stay
    }

    fn fixed_update(&mut self, a: &mut isize, b: &isize) -> (t: Trans<Test>) {
        Trans::Pop
    }

    fn update(&mut self, a: &mut isize, b: &isize) -> (t: Trans<Test>) {
        Trans::Push(Test)
    }
}

} // verus!
