//! An incremental computation engine for streaming quantitative
//! transducers: stateful computations that consume a stream of items and,
//! after every item and after each initial "restart" value, emit no
//! output, a single output, or a signal that multiple conflicting outputs
//! would be produced.
//!
//! - `ext_value` is the tri-valued result algebra everything is built on;
//! - `interface` is the contract every streaming computation implements,
//!   with the derived stream-processing operations and the restartability
//!   oracle;
//! - `qre` is the combinator algebra building complex computations out of
//!   primitive ones;
//! - `state_machine` is an explicit finite-state alternative evaluated by
//!   an epsilon-closure fixed point over a worklist.

pub mod ext_value;
pub mod interface;
pub mod qre;
pub mod state_machine;
