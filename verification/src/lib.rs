//! Verified core of the fmusim command line tool.
use vstd::prelude::*;

pub mod cmake;
pub mod cli;
pub mod info;
pub mod simulate;
pub mod text;
pub mod validate;

verus! {

} // verus!
