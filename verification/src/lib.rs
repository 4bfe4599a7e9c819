//! Reports what the functions of a smart contract cost.
//!
//! A contract is given by the address of its page in the explorer, or by its
//! source code. [`job`] leads from there to the answer, one step at a time: what
//! has to be requested, stored or analyzed is done by the caller, who tells what
//! came of it. The other modules decide what the steps are made of.

pub mod cache;
pub mod clean;
pub mod cost;
pub mod explorer;
pub mod failure;
pub mod job;
pub mod json;
pub mod source;
pub mod text;
