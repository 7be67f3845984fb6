//! Turns run through `oneharness`: how one is asked for, and what its report means.

pub mod attribution;
pub mod history;
pub mod plain;
pub mod provider;
pub mod report;
pub mod stream;
pub mod turn;
