//! Query parameters of the landing page and its demos.

use vstd::prelude::*;

verus! {

/// Query parameters of the landing page.
pub struct GetStartPageParams {
    pub poll_id: Option<String>,
}

/// Query parameters of the landing page's demo slides.
pub struct GetStartPageDemoParams {
    pub index: usize,
}

} // verus!
