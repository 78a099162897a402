//! A hierarchical state machine whose states are step functions.
//!
//! A `Composite` owns the data shared by a family of sibling states. Its drive
//! loop (`Composite::init`) hands the composite to the active state, which
//! either names the next state of the same composite (`Transit::To`) or leaves
//! the composite with a value (`Transit::Lift`). A state may build and drive a
//! nested composite of its own; a `BuilderPair` lifted out of such a child
//! names the state in which the parent resumes.
//!
//! Each drive loop runs at most the number of steps its caller grants it.
//! Nesting depth is not bounded by the library: each level is an ordinary
//! call made by a state of the level above.

mod transit;
mod composite;
mod laws;

pub use transit::{Transit, BuilderPair, Halt};
pub use composite::{Composite, Step, is_run, concludes, outcome};
pub use laws::{
    deterministic,
    lemma_exclusive_progression,
    lemma_error_short_circuit,
    lemma_re_entry_agrees,
    lemma_ranked_run_terminates,
};
