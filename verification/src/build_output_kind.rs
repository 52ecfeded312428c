//! The numbers under which a build's output keeps what only build plugins read.

use vstd::prelude::*;

verus! {

pub const TRANSITIVE_PRODUCTS: u32 = 0;

} // verus!
