//! The deterministic stand-ins a run can be driven against without a model: what
//! each of them says to what it is asked. Their processes, files and sockets are the
//! embedder's.

pub mod control;
pub mod echo;
pub mod flags;
pub mod harness;
pub mod lint;
pub mod lower;
pub mod marker;
pub mod scale;
pub mod turn;
