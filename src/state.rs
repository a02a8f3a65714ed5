use vstd::prelude::*;

verus! {

/// What a state asks of the machine when one of its tick callbacks returns.
pub enum Trans<S> {
    /// Leave the stack as it is.
    Stay,
    /// Stop and remove the top state; resume the one below, if any.
    Pop,
    /// Pause the top state and start the given one above it.
    Push(S),
    /// Stop and remove the top state and start the given one in its place.
    Switch(S),
    /// Stop every state, top to bottom, and halt the machine.
    Quit,
}

/// A unit of behaviour that the machine holds on its stack.
///
/// `M` is the part of the caller's context that callbacks may change, `R` the
/// part they only read. Every callback is described by a spec function from
/// the state and the context to what the callback leaves behind; an
/// implementation states it and proves its callback against it.
pub trait State<M, R>: Sized {
    /// The state and context after `on_start`.
    spec fn start_spec(self, m: M, r: R) -> (Self, M);

    /// The context after `on_stop` (the state is dropped afterwards).
    spec fn stop_spec(self, m: M, r: R) -> M;

    /// The state and context after `on_pause`.
    spec fn pause_spec(self, m: M, r: R) -> (Self, M);

    /// The state and context after `on_resume`.
    spec fn resume_spec(self, m: M, r: R) -> (Self, M);

    /// The state, context and request after `handle_events`.
    spec fn events_spec(self, m: M, r: R) -> (Self, M, Trans<Self>);

    /// The state, context and request after `fixed_update`.
    spec fn fixed_update_spec(self, m: M, r: R) -> (Self, M, Trans<Self>);

    /// The state, context and request after `update`.
    spec fn update_spec(self, m: M, r: R) -> (Self, M, Trans<Self>);

    /// Called when the state becomes active for the first time.
    fn on_start(&mut self, m: &mut M, r: &R)
        ensures
            (*final(self), *final(m)) == old(self).start_spec(*old(m), *r),
    ;

    /// Called when the state leaves the stack for good.
    fn on_stop(&mut self, m: &mut M, r: &R)
        ensures
            *final(m) == old(self).stop_spec(*old(m), *r),
    ;

    /// Called when another state is pushed above this one.
    fn on_pause(&mut self, m: &mut M, r: &R)
        ensures
            (*final(self), *final(m)) == old(self).pause_spec(*old(m), *r),
    ;

    /// Called when this state is the top again after the one above was popped.
    fn on_resume(&mut self, m: &mut M, r: &R)
        ensures
            (*final(self), *final(m)) == old(self).resume_spec(*old(m), *r),
    ;

    /// Runs once per event cycle, before the tick updates.
    fn handle_events(&mut self, m: &mut M, r: &R) -> (t: Trans<Self>)
        ensures
            (*final(self), *final(m), t) == old(self).events_spec(*old(m), *r),
    ;

    /// Runs once per fixed-rate tick.
    fn fixed_update(&mut self, m: &mut M, r: &R) -> (t: Trans<Self>)
        ensures
            (*final(self), *final(m), t) == old(self).fixed_update_spec(*old(m), *r),
    ;

    /// Runs once per variable-rate tick.
    fn update(&mut self, m: &mut M, r: &R) -> (t: Trans<Self>)
        ensures
            (*final(self), *final(m), t) == old(self).update_spec(*old(m), *r),
    ;
}

/// One lifecycle callback that the machine runs on the top of its stack.
pub enum Step<S> {
    /// `on_stop` on the top state, which then leaves the stack.
    Stop,
    /// `on_pause` on the top state.
    Pause,
    /// `on_resume` on the top state.
    Resume,
    /// The given state goes on the stack and gets `on_start`.
    Start(S),
}

/// Runs one step on a stack and context. A step that needs a top state does
/// nothing on an empty stack.
pub open spec fn apply_step<S: State<M, R>, M, R>(step: Step<S>, stack: Seq<S>, m: M, r: R) -> (
    Seq<S>,
    M,
) {
    let n = stack.len();
    match step {
        Step::Stop => if n == 0 {
            (stack, m)
        } else {
            (stack.drop_last(), stack.last().stop_spec(m, r))
        },
        Step::Pause => if n == 0 {
            (stack, m)
        } else {
            let p = stack.last().pause_spec(m, r);
            (stack.update(n - 1, p.0), p.1)
        },
        Step::Resume => if n == 0 {
            (stack, m)
        } else {
            let p = stack.last().resume_spec(m, r);
            (stack.update(n - 1, p.0), p.1)
        },
        Step::Start(s) => {
            let p = s.start_spec(m, r);
            (stack.push(p.0), p.1)
        },
    }
}

/// Runs the steps in order, first to last.
pub open spec fn run_steps<S: State<M, R>, M, R>(steps: Seq<Step<S>>, stack: Seq<S>, m: M, r: R) -> (
    Seq<S>,
    M,
)
    decreases steps.len(),
{
    if steps.len() == 0 {
        (stack, m)
    } else {
        let p = apply_step(steps[0], stack, m, r);
        run_steps(steps.drop_first(), p.0, p.1, r)
    }
}

/// `n` stops in a row.
pub open spec fn stops<S>(n: nat) -> Seq<Step<S>>
    decreases n,
{
    if n == 0 {
        Seq::empty()
    } else {
        seq![Step::Stop].add(stops((n - 1) as nat))
    }
}

/// The callbacks that a request sets off on a stack of the given depth, in
/// the order in which they run.
pub open spec fn plan<S>(t: Trans<S>, depth: nat) -> Seq<Step<S>> {
    match t {
        Trans::Stay => Seq::empty(),
        Trans::Pop => if depth == 0 {
            Seq::empty()
        } else if depth == 1 {
            seq![Step::Stop]
        } else {
            seq![Step::Stop, Step::Resume]
        },
        Trans::Push(s) => if depth == 0 {
            seq![Step::Start(s)]
        } else {
            seq![Step::Pause, Step::Start(s)]
        },
        Trans::Switch(s) => if depth == 0 {
            seq![Step::Start(s)]
        } else {
            seq![Step::Stop, Step::Start(s)]
        },
        Trans::Quit => stops(depth),
    }
}

/// Whether the machine still runs after resolving the request on a stack of
/// the given depth.
pub open spec fn keeps_running<S>(t: Trans<S>, depth: nat) -> bool {
    match t {
        Trans::Pop => depth > 1,
        Trans::Quit => false,
        _ => true,
    }
}

/// The stack and context after the machine resolves a request.
pub open spec fn resolve<S: State<M, R>, M, R>(t: Trans<S>, stack: Seq<S>, m: M, r: R) -> (
    Seq<S>,
    M,
) {
    run_steps(plan(t, stack.len()), stack, m, r)
}

/// The stack, context and running flag after a tick whose callback on the
/// top state returned `out` (the new top, the new context, the request).
pub open spec fn after_tick<S: State<M, R>, M, R>(stack: Seq<S>, out: (S, M, Trans<S>), r: R) -> (
    Seq<S>,
    M,
    bool,
) {
    let p = resolve(out.2, stack.update(stack.len() - 1, out.0), out.1, r);
    (p.0, p.1, keeps_running(out.2, stack.len()))
}

} // verus!
