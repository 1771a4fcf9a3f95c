//! The numbers that the models agree on.

use vstd::prelude::*;

verus! {

/// The greatest number of items that one page of a catalog holds.
pub const CATALOG_PAGE_SIZE: usize = 100;

} // verus!
