//! Illustrations shown on some pages.

use vstd::prelude::*;

verus! {

/// The illustrations the pages can show.
pub enum Illustrations {
    InLove,
}

} // verus!
