//! Sorting large vectors of unsigned integers with a bucketed counting sort
//! (the "stair sort"), together with a linked-list stack, line search, a few
//! game rules and small helpers over numbers, strings and structs.

pub mod adder;
pub mod basics;
pub mod closures;
pub mod counting;
pub mod minigrep;
pub mod restaurant;
pub mod rps;
pub mod shapes;
pub mod sort_spec;
pub mod stack;
pub mod stats;
pub mod stair_sort;
pub mod summary;
pub mod workout;
