//! `wl_buffer`.

use vstd::prelude::*;

verus! {

pub const RELEASE: u16 = 0;

pub const DESTROY: u16 = 0;

} // verus!
