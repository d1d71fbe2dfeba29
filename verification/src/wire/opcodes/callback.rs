//! `wl_callback`.

use vstd::prelude::*;

verus! {

pub const DONE: u16 = 0;

} // verus!
