//! A verified single-tape Turing machine simulator.
//!
//! A machine is described by a declarative definition (states, alphabet,
//! transition table), validated once, and then executed against an input
//! string. The execution engine reports every applied transition as a plain
//! step event and finishes with an explicit halt reason, so that presentation
//! can live entirely outside the core.

pub mod interpretor;
pub mod machine;
pub mod tape;
