//! A NaN-boxed value layer for a small Scheme machine: one 64-bit word per
//! value, heap cells kept on an intrusive list, and a mark and sweep collector.
#![allow(non_snake_case)]
#![allow(non_upper_case_globals)]

pub mod boxed;
pub mod collect;
pub mod display;
pub mod heap;
pub mod heap_repr;
pub mod interner;
pub mod layout;
pub mod mark;
pub mod number;
pub mod repl;
pub mod sweep;
pub mod value;
