use vstd::prelude::*;

pub mod layout;
pub mod paths;
pub mod reduce;
pub mod render;
pub mod wrap;

verus! {

} // verus!
