//! Search core of a coverage-guided, constraint-solving fuzzer: condition
//! records and their objective, the priority queue, the typed-byte mutation
//! view, the branch map with crash deduplication, the decisions of the
//! gradient solver, and the havoc and length mutations.

pub mod defs;
pub mod cond_stmt_base;
pub mod output;
pub mod config;
pub mod qpriority;
pub mod fuzz_type;
pub mod cond_id;
pub mod tag;
pub mod rw;
pub mod sign;
pub mod mut_input;
pub mod branches;
pub mod cond_stmt;
pub mod depot;
pub mod stats;
pub mod afl;
pub mod crash;
pub mod gradient;
pub(crate) mod rng;
