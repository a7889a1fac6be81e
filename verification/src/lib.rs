//! Classic computer-science exercises, verified: elementary searches and
//! sorts, recursion patterns, a recursive maze solver, and from-scratch
//! textbook data structures (stacks, queues, linked lists, binary trees,
//! a growable array and a diagonal matrix).

pub mod algo;
pub mod decimal;
pub mod structures;
