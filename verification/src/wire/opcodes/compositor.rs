//! `wl_compositor`.

use vstd::prelude::*;

verus! {

pub const CREATE_SURFACE: u16 = 0;

} // verus!
