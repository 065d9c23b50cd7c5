//! Per-target capability modules: the older, narrow interface of the
//! catalog, one module per target, each naming its owner, toolchain
//! kind, working directory and dependencies.

pub mod cli;
pub mod wrapper;
