use vstd::prelude::*;

use crate::transit::{Transit, Halt};

verus! {

/// Shared data of a family of sibling states. Exactly one state holds the
/// composite at a time: the drive loop moves it into the active state and
/// takes it back from that state's result.
pub struct Composite<Data> {
    pub data: Data,
}

/// One state step as the drive loop saw it: the composite and state it was
/// run with, the composite it handed back, and what it decided.
pub struct Step<Data, S, Out, E> {
    pub input: Composite<Data>,
    pub state: S,
    pub output: Composite<Data>,
    pub transit: Result<Transit<S, Out>, E>,
}

/// `h` is a run of the state function `f` from composite `start` in state
/// `first`: every step is a possible result of `f`, and each step after the
/// first starts from exactly the composite the previous step handed back, in
/// the state that step named with `To`.
pub open spec fn is_run<Data, S, Out, E, F>(
    f: F,
    start: Composite<Data>,
    first: S,
    h: Seq<Step<Data, S, Out, E>>,
) -> bool where
    F: Fn(Composite<Data>, S) -> (Composite<Data>, Result<Transit<S, Out>, E>),
 {
    &&& h.len() > 0 ==> h[0].input == start && h[0].state == first
    &&& forall|i: int|
        0 <= i < h.len() ==> f.ensures(
            (#[trigger] h[i].input, h[i].state),
            (h[i].output, h[i].transit),
        )
    &&& forall|i: int|
        0 <= i < h.len() - 1 ==> #[trigger] h[i].transit == Ok::<Transit<S, Out>, E>(
            Transit::To(h[i + 1].state),
        ) && h[i + 1].input == h[i].output
}

/// The run `h` stopped where a drive loop with a budget of `max_steps` steps
/// stops: at a step that did not continue, or when the budget is spent.
pub open spec fn concludes<Data, S, Out, E>(h: Seq<Step<Data, S, Out, E>>, max_steps: nat) -> bool {
    &&& h.len() <= max_steps
    &&& h.len() == max_steps || (h.len() > 0 && !(h.last().transit matches Ok(Transit::To(_))))
}

/// What a drive loop from `start` hands back after the run `h`: the composite
/// as the last step left it, and the lifted value, the error, or the spent
/// budget.
pub open spec fn outcome<Data, S, Out, E>(start: Composite<Data>, h: Seq<Step<Data, S, Out, E>>) -> (
    Composite<Data>,
    Result<Out, Halt<E>>,
) {
    if h.len() == 0 {
        (start, Err(Halt::OutOfSteps))
    } else {
        let last = h.last();
        match last.transit {
            Ok(Transit::Lift(o)) => (last.output, Ok(o)),
            Ok(Transit::To(_)) => (last.output, Err(Halt::OutOfSteps)),
            Err(e) => (last.output, Err(Halt::Failed(e))),
        }
    }
}

impl<Data> Composite<Data> {
    /// A new composite owning `data`.
    pub fn new(data: Data) -> (r: Self)
        ensures
            r.data == data,
    {
        Composite { data }
    }

    /// The drive loop. Runs the state function `f` on this composite from
    /// state `first`, and again on each state that a step names with `To`,
    /// until a step lifts a value or fails, or `max_steps` steps have run.
    /// Hands back the composite as the last step left it, with the lifted
    /// value or the reason it stopped.
    pub fn init<S, Out, E, F>(self, f: F, first: S, max_steps: usize) -> (r: (
        Composite<Data>,
        Result<Out, Halt<E>>,
    )) where
        F: Fn(Composite<Data>, S) -> (Composite<Data>, Result<Transit<S, Out>, E>),

        requires
            forall|c: Composite<Data>, s: S| #[trigger] f.requires((c, s)),
        ensures
            exists|h: Seq<Step<Data, S, Out, E>>|
                #![trigger is_run(f, self, first, h)]
                {
                    &&& is_run(f, self, first, h)
                    &&& concludes(h, max_steps as nat)
                    &&& r == outcome(self, h)
                },
    {
        let ghost start = self;
        if max_steps == 0 {
            let ghost h = Seq::<Step<Data, S, Out, E>>::empty();
            assert(is_run(f, start, first, h) && concludes(h, 0) && outcome(start, h) == (
            self, Err::<Out, Halt<E>>(Halt::OutOfSteps)));
            return (self, Err(Halt::OutOfSteps));
        }
        let ghost s0 = first;
        let (c1, t1) = f(self, first);
        let mut comp = c1;
        let mut trans = t1;
        let ghost mut h = seq![Step { input: start, state: s0, output: comp, transit: trans }];
        let mut taken: usize = 1;
        loop
            invariant
                forall|c: Composite<Data>, s: S| #[trigger] f.requires((c, s)),
                start == self,
                is_run(f, start, first, h),
                h.len() == taken,
                1 <= taken <= max_steps,
                h.last().output == comp,
                h.last().transit == trans,
            decreases max_steps - taken,
        {
            match trans {
                Ok(Transit::To(next)) => {
                    if taken == max_steps {
                        let r = (comp, Err(Halt::OutOfSteps));
                        assert(is_run(f, start, first, h) && concludes(h, max_steps as nat) && r
                            == outcome(start, h));
                        return r;
                    }
                    let ghost c_in = comp;
                    let ghost s_in = next;
                    let (c2, t2) = f(comp, next);
                    proof {
                        let step = Step { input: c_in, state: s_in, output: c2, transit: t2 };
                        let h2 = h.push(step);
                        assert(h2[h2.len() - 1] == step);
                        assert forall|i: int| 0 <= i < h2.len() - 1 implies #[trigger] h2[i].transit
                            == Ok::<Transit<S, Out>, E>(Transit::To(h2[i + 1].state)) && h2[i + 1].input
                            == h2[i].output by {
                            if i < h2.len() - 2 {
                                assert(h2[i] == h[i] && h2[i + 1] == h[i + 1]);
                            } else {
                                assert(h2[i] == h.last());
                            }
                        }
                        assert forall|i: int| 0 <= i < h2.len() implies f.ensures(
                            (#[trigger] h2[i].input, h2[i].state),
                            (h2[i].output, h2[i].transit),
                        ) by {
                            if i < h.len() {
                                assert(h2[i] == h[i]);
                            }
                        }
                        h = h2;
                    }
                    comp = c2;
                    trans = t2;
                    taken = taken + 1;
                },
                Ok(Transit::Lift(o)) => {
                    let r = (comp, Ok(o));
                    assert(is_run(f, start, first, h) && concludes(h, max_steps as nat) && r
                        == outcome(start, h));
                    return r;
                },
                Err(e) => {
                    let r = (comp, Err(Halt::Failed(e)));
                    assert(is_run(f, start, first, h) && concludes(h, max_steps as nat) && r
                        == outcome(start, h));
                    return r;
                },
            }
        }
    }
}

} // verus!
