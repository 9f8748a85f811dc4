//! A generic Turing-machine simulator: an unbounded, bidirectional tape with
//! a single read/write head, and a machine that drives the tape through a
//! caller-supplied transition function until a designated stop state.

pub mod machine;
pub mod tape;

pub use machine::Machine;
pub use tape::Action;
pub use tape::Move;
pub use tape::Tape;
