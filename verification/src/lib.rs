//! An execution engine for a minimal eight-instruction tape language: an
//! unbounded zero-initialized byte tape, one data pointer, wrap-around cell
//! arithmetic, bracket-delimited loops, and byte input/output.

/// The growable, zero-initialized byte tape.
pub mod tape;

/// The error kinds an execution can end with.
pub mod errors;

/// The execution state: a tape plus a data pointer, with the cell and
/// pointer operations.
pub mod state;

/// The mathematical model: bracket pairing, the small-step machine, and the
/// fuel-bounded run function that the engine is proved against.
pub mod semantics;

/// Bracket-table construction, pair lookup, and the instruction dispatch
/// loop.
pub mod interp;

pub use errors::BfError;
pub use errors::BfStateResult;
pub use interp::build_pc_pairs;
pub use interp::match_left_pc;
pub use interp::match_right_pc;
pub use interp::run;
pub use interp::run_io;
pub use state::BfState;
pub use tape::GrowableVect;
