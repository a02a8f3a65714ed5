use vstd::prelude::*;

use crate::state::{apply_step, keeps_running, plan, resolve, run_steps, stops, State, Step, Trans};

verus! {

/// The lifecycle callbacks, without the state that a start brings.
pub enum Callback {
    OnStart,
    OnStop,
    OnPause,
    OnResume,
}

/// The callback that a step runs.
pub open spec fn callback_of<S>(step: Step<S>) -> Callback {
    match step {
        Step::Stop => Callback::OnStop,
        Step::Pause => Callback::OnPause,
        Step::Resume => Callback::OnResume,
        Step::Start(_) => Callback::OnStart,
    }
}

/// How many of the steps run callback `c`.
pub open spec fn count_steps<S>(steps: Seq<Step<S>>, c: Callback) -> nat
    decreases steps.len(),
{
    if steps.len() == 0 {
        0
    } else {
        (if callback_of(steps[0]) == c {
            1nat
        } else {
            0nat
        }) + count_steps(steps.drop_first(), c)
    }
}

/// The number of states a request removes for good from a stack of depth
/// `depth > 0`.
pub open spec fn removed<S>(t: Trans<S>, depth: nat) -> nat {
    match t {
        Trans::Pop => 1,
        Trans::Switch(_) => 1,
        Trans::Quit => depth,
        _ => 0,
    }
}

/// Running a nonempty plan is running its first step, then the rest.
proof fn lemma_run_first<S: State<M, R>, M, R>(steps: Seq<Step<S>>, stack: Seq<S>, m: M, r: R)
    requires
        steps.len() > 0,
    ensures
        run_steps(steps, stack, m, r) == run_steps(
            steps.drop_first(),
            apply_step(steps[0], stack, m, r).0,
            apply_step(steps[0], stack, m, r).1,
            r,
        ),
{
}

/// Stopping the top of a nonempty stack and then `k - 1` more states is the
/// same as stopping `k` states.
pub proof fn lemma_stops_unfold<S: State<M, R>, M, R>(k: nat, stack: Seq<S>, m: M, r: R)
    requires
        k > 0,
        stack.len() > 0,
    ensures
        run_steps(stops(k), stack, m, r) == run_steps(
            stops((k - 1) as nat),
            stack.drop_last(),
            stack.last().stop_spec(m, r),
            r,
        ),
{
    let steps: Seq<Step<S>> = stops(k);
    assert(steps[0] == Step::<S>::Stop);
    assert(steps.drop_first() =~= stops((k - 1) as nat));
    lemma_run_first(steps, stack, m, r);
}

/// Stopping `k` states takes the top `k` off the stack.
pub proof fn lemma_stops_remove<S: State<M, R>, M, R>(k: nat, stack: Seq<S>, m: M, r: R)
    requires
        k <= stack.len(),
    ensures
        run_steps(stops(k), stack, m, r).0 =~= stack.subrange(0, stack.len() - k),
    decreases k,
{
    if k == 0 {
        assert(stops::<S>(0) =~= Seq::empty());
    } else {
        lemma_stops_unfold(k, stack, m, r);
        lemma_stops_remove((k - 1) as nat, stack.drop_last(), stack.last().stop_spec(m, r), r);
    }
}

proof fn lemma_count_stops<S>(k: nat)
    ensures
        count_steps(stops::<S>(k), Callback::OnStop) == k,
        count_steps(stops::<S>(k), Callback::OnStart) == 0,
        count_steps(stops::<S>(k), Callback::OnResume) == 0,
    decreases k,
{
    if k > 0 {
        let steps: Seq<Step<S>> = stops(k);
        assert(steps.drop_first() =~= stops((k - 1) as nat));
        lemma_count_stops::<S>((k - 1) as nat);
    }
}

/// While the machine runs, it keeps running exactly when the resolved stack
/// is not empty: a request that halts it leaves no state behind, and one
/// that does not leaves a state on top.
pub proof fn lemma_running_iff_nonempty<S: State<M, R>, M, R>(
    t: Trans<S>,
    stack: Seq<S>,
    m: M,
    r: R,
)
    requires
        stack.len() > 0,
    ensures
        resolve(t, stack, m, r).0.len() > 0 <==> keeps_running(t, stack.len()),
{
    let n = stack.len();
    match t {
        Trans::Stay => {},
        Trans::Pop => {
            if n == 1 {
                lemma_pop_last(stack, m, r);
            } else {
                lemma_pop_resumes(stack, m, r);
            }
        },
        Trans::Push(s) => lemma_push_pauses_then_starts(s, stack, m, r),
        Trans::Switch(s) => lemma_switch_stops_then_starts(s, stack, m, r),
        Trans::Quit => lemma_stops_remove(n, stack, m, r),
    }
}

/// Each request fires one `on_start` per state it brings in, one `on_resume`
/// for a state it makes the top again, and one `on_stop` per state it
/// removes for good; the stack's depth changes by exactly that balance.
pub proof fn lemma_one_callback_per_event<S: State<M, R>, M, R>(
    t: Trans<S>,
    stack: Seq<S>,
    m: M,
    r: R,
)
    requires
        stack.len() > 0,
    ensures
        count_steps(plan(t, stack.len()), Callback::OnStart) == (if t is Push || t is Switch {
            1nat
        } else {
            0nat
        }),
        count_steps(plan(t, stack.len()), Callback::OnResume) == (if t is Pop && stack.len()
            > 1 {
            1nat
        } else {
            0nat
        }),
        count_steps(plan(t, stack.len()), Callback::OnStop) == removed(t, stack.len()),
        resolve(t, stack, m, r).0.len() + removed(t, stack.len()) == stack.len() + count_steps(
            plan(t, stack.len()),
            Callback::OnStart,
        ),
{
    let n = stack.len();
    let p: Seq<Step<S>> = plan(t, n);
    reveal_with_fuel(count_steps, 3);
    match t {
        Trans::Stay => {},
        Trans::Pop => {
            if n == 1 {
                assert(p.drop_first() =~= Seq::empty());
                lemma_pop_last(stack, m, r);
            } else {
                assert(p.drop_first() =~= seq![Step::Resume]);
                assert(p.drop_first().drop_first() =~= Seq::empty());
                lemma_pop_resumes(stack, m, r);
            }
        },
        Trans::Push(s) => {
            assert(p.drop_first() =~= seq![Step::Start(s)]);
            assert(p.drop_first().drop_first() =~= Seq::empty());
            lemma_push_pauses_then_starts(s, stack, m, r);
        },
        Trans::Switch(s) => {
            assert(p.drop_first() =~= seq![Step::Start(s)]);
            assert(p.drop_first().drop_first() =~= Seq::empty());
            lemma_switch_stops_then_starts(s, stack, m, r);
        },
        Trans::Quit => {
            lemma_count_stops::<S>(n);
            lemma_stops_remove(n, stack, m, r);
        },
    }
}

/// A pop on a stack of one state stops it and leaves the stack empty.
pub proof fn lemma_pop_last<S: State<M, R>, M, R>(stack: Seq<S>, m: M, r: R)
    requires
        stack.len() == 1,
    ensures
        plan(Trans::<S>::Pop, stack.len()) == seq![Step::<S>::Stop],
        resolve(Trans::Pop, stack, m, r) == (Seq::<S>::empty(), stack.last().stop_spec(m, r)),
        !keeps_running(Trans::<S>::Pop, stack.len()),
{
    let p: Seq<Step<S>> = plan(Trans::Pop, 1);
    assert(p.drop_first() =~= Seq::empty());
    assert(stack.drop_last() =~= Seq::empty());
    lemma_run_first(p, stack, m, r);
}

/// A pop on a deeper stack stops the top, removes it, and then resumes the
/// state below, which is the top again.
pub proof fn lemma_pop_resumes<S: State<M, R>, M, R>(stack: Seq<S>, m: M, r: R)
    requires
        stack.len() > 1,
    ensures
        plan(Trans::<S>::Pop, stack.len()) == seq![Step::<S>::Stop, Step::Resume],
        resolve(Trans::Pop, stack, m, r) == ({
            let rest = stack.drop_last();
            let q = rest.last().resume_spec(stack.last().stop_spec(m, r), r);
            (rest.update(rest.len() - 1, q.0), q.1)
        }),
        keeps_running(Trans::<S>::Pop, stack.len()),
{
    let p: Seq<Step<S>> = plan(Trans::Pop, stack.len());
    assert(p.drop_first() =~= seq![Step::Resume]);
    assert(p.drop_first().drop_first() =~= Seq::empty());
    lemma_run_first(p, stack, m, r);
    let a = apply_step(p[0], stack, m, r);
    lemma_run_first(p.drop_first(), a.0, a.1, r);
}

/// A push pauses the top state first and starts the new state after, on
/// the context that the pause left; nothing is removed.
pub proof fn lemma_push_pauses_then_starts<S: State<M, R>, M, R>(s: S, stack: Seq<S>, m: M, r: R)
    requires
        stack.len() > 0,
    ensures
        plan(Trans::Push(s), stack.len()) == seq![Step::Pause, Step::Start(s)],
        resolve(Trans::Push(s), stack, m, r) == ({
            let p = stack.last().pause_spec(m, r);
            let q = s.start_spec(p.1, r);
            (stack.update(stack.len() - 1, p.0).push(q.0), q.1)
        }),
        keeps_running(Trans::Push(s), stack.len()),
{
    let p: Seq<Step<S>> = plan(Trans::Push(s), stack.len());
    assert(p.drop_first() =~= seq![Step::Start(s)]);
    assert(p.drop_first().drop_first() =~= Seq::empty());
    lemma_run_first(p, stack, m, r);
    let a = apply_step(p[0], stack, m, r);
    lemma_run_first(p.drop_first(), a.0, a.1, r);
}

/// A switch stops the top state first and starts the new state after, on
/// the context that the stop left. The states beneath get no callback and
/// stay as they were.
pub proof fn lemma_switch_stops_then_starts<S: State<M, R>, M, R>(
    s: S,
    stack: Seq<S>,
    m: M,
    r: R,
)
    requires
        stack.len() > 0,
    ensures
        plan(Trans::Switch(s), stack.len()) == seq![Step::Stop, Step::Start(s)],
        resolve(Trans::Switch(s), stack, m, r) == ({
            let q = s.start_spec(stack.last().stop_spec(m, r), r);
            (stack.drop_last().push(q.0), q.1)
        }),
        resolve(Trans::Switch(s), stack, m, r).0.len() == stack.len(),
        resolve(Trans::Switch(s), stack, m, r).0.subrange(0, stack.len() - 1) == stack.subrange(
            0,
            stack.len() - 1,
        ),
        keeps_running(Trans::Switch(s), stack.len()),
{
    let p: Seq<Step<S>> = plan(Trans::Switch(s), stack.len());
    assert(p.drop_first() =~= seq![Step::Start(s)]);
    assert(p.drop_first().drop_first() =~= Seq::empty());
    lemma_run_first(p, stack, m, r);
    let a = apply_step(p[0], stack, m, r);
    lemma_run_first(p.drop_first(), a.0, a.1, r);
    let res = resolve(Trans::Switch(s), stack, m, r).0;
    assert(res.subrange(0, stack.len() - 1) =~= stack.subrange(0, stack.len() - 1));
}

} // verus!
