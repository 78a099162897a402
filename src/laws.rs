use vstd::prelude::*;

use crate::composite::{Composite, Step, is_run, concludes, outcome};
use crate::transit::{Transit, Halt};

verus! {

/// `f` gives one result for each composite and state: its result depends on
/// its inputs alone.
pub open spec fn deterministic<Data, S, Out, E, F>(f: F) -> bool where
    F: Fn(Composite<Data>, S) -> (Composite<Data>, Result<Transit<S, Out>, E>),
 {
    forall|c: Composite<Data>, s: S, r1: (Composite<Data>, Result<Transit<S, Out>, E>), r2: (Composite<Data>, Result<Transit<S, Out>, E>)|
        #![trigger f.ensures((c, s), r1), f.ensures((c, s), r2)]
        f.ensures((c, s), r1) && f.ensures((c, s), r2) ==> r1 == r2
}

/// Steps run one after another: step `i + 1` begins only after step `i` has
/// resolved to `To`, with exactly the composite that step `i` handed back and
/// in the state that step `i` named.
pub proof fn lemma_exclusive_progression<Data, S, Out, E, F>(
    f: F,
    start: Composite<Data>,
    first: S,
    h: Seq<Step<Data, S, Out, E>>,
    i: int,
) where
    F: Fn(Composite<Data>, S) -> (Composite<Data>, Result<Transit<S, Out>, E>),

    requires
        is_run(f, start, first, h),
        0 <= i < h.len() - 1,
    ensures
        h[i].transit == Ok::<Transit<S, Out>, E>(Transit::To(h[i + 1].state)),
        h[i + 1].input == h[i].output,
{
}

/// A failing step is the last one: when step `k` fails with error `e`, no
/// step after it runs, and the drive loop hands back exactly `e`.
pub proof fn lemma_error_short_circuit<Data, S, Out, E, F>(
    f: F,
    start: Composite<Data>,
    first: S,
    h: Seq<Step<Data, S, Out, E>>,
    k: int,
    e: E,
) where
    F: Fn(Composite<Data>, S) -> (Composite<Data>, Result<Transit<S, Out>, E>),

    requires
        is_run(f, start, first, h),
        0 <= k < h.len(),
        h[k].transit == Err::<Transit<S, Out>, E>(e),
    ensures
        k == h.len() - 1,
        outcome(start, h).1 == Err::<Out, Halt<E>>(Halt::Failed(e)),
{
    if k < h.len() - 1 {
        assert(h[k].transit == Ok::<Transit<S, Out>, E>(Transit::To(h[k + 1].state)));
    }
}

/// Driving two composites with equal data from the same state, with the same
/// budget and a state function whose result depends on its inputs alone, runs
/// the same steps and hands back the same outcome: no state is carried from
/// one drive loop to another.
pub proof fn lemma_re_entry_agrees<Data, S, Out, E, F>(
    f: F,
    start: Composite<Data>,
    first: S,
    max_steps: nat,
    h1: Seq<Step<Data, S, Out, E>>,
    h2: Seq<Step<Data, S, Out, E>>,
) where
    F: Fn(Composite<Data>, S) -> (Composite<Data>, Result<Transit<S, Out>, E>),

    requires
        deterministic(f),
        is_run(f, start, first, h1),
        concludes(h1, max_steps),
        is_run(f, start, first, h2),
        concludes(h2, max_steps),
    ensures
        h1 == h2,
        outcome(start, h1) == outcome(start, h2),
{
    lemma_runs_share_prefix(f, start, first, h1, h2);
    if h1.len() < h2.len() {
        let j = h1.len() - 1;
        if j >= 0 {
            assert(h1[j] == h2[j]);
            assert(h2[j].transit == Ok::<Transit<S, Out>, E>(Transit::To(h2[j + 1].state)));
        }
    } else if h2.len() < h1.len() {
        let j = h2.len() - 1;
        if j >= 0 {
            assert(h1[j] == h2[j]);
            assert(h1[j].transit == Ok::<Transit<S, Out>, E>(Transit::To(h1[j + 1].state)));
        }
    }
    assert(h1 =~= h2);
}

/// Two runs of a deterministic state function from the same start agree on
/// every step that both hold.
proof fn lemma_runs_share_prefix<Data, S, Out, E, F>(
    f: F,
    start: Composite<Data>,
    first: S,
    h1: Seq<Step<Data, S, Out, E>>,
    h2: Seq<Step<Data, S, Out, E>>,
) where
    F: Fn(Composite<Data>, S) -> (Composite<Data>, Result<Transit<S, Out>, E>),

    requires
        deterministic(f),
        is_run(f, start, first, h1),
        is_run(f, start, first, h2),
    ensures
        forall|i: int| 0 <= i < h1.len() && i < h2.len() ==> h1[i] == h2[i],
{
    assert forall|i: int| 0 <= i < h1.len() && i < h2.len() implies h1[i] == h2[i] by {
        lemma_step_agrees(f, start, first, h1, h2, i);
    }
}

proof fn lemma_step_agrees<Data, S, Out, E, F>(
    f: F,
    start: Composite<Data>,
    first: S,
    h1: Seq<Step<Data, S, Out, E>>,
    h2: Seq<Step<Data, S, Out, E>>,
    i: int,
) where
    F: Fn(Composite<Data>, S) -> (Composite<Data>, Result<Transit<S, Out>, E>),

    requires
        deterministic(f),
        is_run(f, start, first, h1),
        is_run(f, start, first, h2),
        0 <= i < h1.len(),
        i < h2.len(),
    ensures
        h1[i] == h2[i],
    decreases i,
{
    if i > 0 {
        lemma_step_agrees(f, start, first, h1, h2, i - 1);
        assert(h1[i - 1].transit == Ok::<Transit<S, Out>, E>(Transit::To(h1[i].state)));
        assert(h2[i - 1].transit == Ok::<Transit<S, Out>, E>(Transit::To(h2[i].state)));
    }
    assert(f.ensures((h1[i].input, h1[i].state), (h1[i].output, h1[i].transit)));
    assert(f.ensures((h2[i].input, h2[i].state), (h2[i].output, h2[i].transit)));
}

/// A drive loop ends on a decision of its states rather than on a spent
/// budget when each `To` step strictly lowers a measure `m` (such as the
/// number of events still to come) and the budget exceeds the measure at the
/// start. If no step fails, it then ends with a lifted value.
pub proof fn lemma_ranked_run_terminates<Data, S, Out, E, F>(
    f: F,
    m: spec_fn(Composite<Data>, S) -> nat,
    start: Composite<Data>,
    first: S,
    max_steps: nat,
    h: Seq<Step<Data, S, Out, E>>,
) where
    F: Fn(Composite<Data>, S) -> (Composite<Data>, Result<Transit<S, Out>, E>),

    requires
        forall|c: Composite<Data>, s: S, c2: Composite<Data>, s2: S|
            #[trigger] f.ensures((c, s), (c2, Ok::<Transit<S, Out>, E>(Transit::To(s2)))) ==> m(c2, s2)
                < m(c, s),
        m(start, first) < max_steps,
        is_run(f, start, first, h),
        concludes(h, max_steps),
    ensures
        outcome(start, h).1 != Err::<Out, Halt<E>>(Halt::OutOfSteps),
        (forall|c: Composite<Data>, s: S, r: (Composite<Data>, Result<Transit<S, Out>, E>)|
            #[trigger] f.ensures((c, s), r) ==> r.1 is Ok) ==> outcome(start, h).1 is Ok,
{
    assert forall|i: int| 0 <= i < h.len() implies m(h[i].input, h[i].state) + i <= m(
        start,
        first,
    ) by {
        lemma_measure_falls(f, m, start, first, h, i);
    }
    if h.len() > 0 {
        let j = h.len() - 1;
        let last = h[j];
        assert(f.ensures((last.input, last.state), (last.output, last.transit)));
        if let Ok(Transit::To(s2)) = last.transit {
            assert(m(last.output, s2) < m(last.input, last.state));
            assert(m(h[j].input, h[j].state) + j <= m(start, first));
            assert(false);
        }
        if forall|c: Composite<Data>, s: S, r: (Composite<Data>, Result<Transit<S, Out>, E>)|
            #[trigger] f.ensures((c, s), r) ==> r.1 is Ok {
            assert(f.ensures((last.input, last.state), (last.output, last.transit)));
            assert(last.transit is Ok);
        }
    }
}

proof fn lemma_measure_falls<Data, S, Out, E, F>(
    f: F,
    m: spec_fn(Composite<Data>, S) -> nat,
    start: Composite<Data>,
    first: S,
    h: Seq<Step<Data, S, Out, E>>,
    i: int,
) where
    F: Fn(Composite<Data>, S) -> (Composite<Data>, Result<Transit<S, Out>, E>),

    requires
        forall|c: Composite<Data>, s: S, c2: Composite<Data>, s2: S|
            #[trigger] f.ensures((c, s), (c2, Ok::<Transit<S, Out>, E>(Transit::To(s2)))) ==> m(c2, s2)
                < m(c, s),
        is_run(f, start, first, h),
        0 <= i < h.len(),
    ensures
        m(h[i].input, h[i].state) + i <= m(start, first),
    decreases i,
{
    if i > 0 {
        lemma_measure_falls(f, m, start, first, h, i - 1);
        let p = h[i - 1];
        assert(f.ensures((p.input, p.state), (p.output, p.transit)));
        assert(p.transit == Ok::<Transit<S, Out>, E>(Transit::To(h[i].state)));
    }
}

} // verus!
