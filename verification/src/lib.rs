//! Non-negative integers, arithmetic on them, and fixed-capacity array containers.
use vstd::prelude::*;

pub mod uint;
pub mod digits;
pub mod ops;
pub mod consts;
pub mod condty;
pub mod array;
pub mod __mac;
pub mod tern;
pub mod internals;
pub mod capnum;
pub mod maxint;
pub mod const_fmt;
pub mod lit;

verus! {

} // verus!
