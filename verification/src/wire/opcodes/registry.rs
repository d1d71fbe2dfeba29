//! `wl_registry`.

use vstd::prelude::*;

verus! {

pub const GLOBAL: u16 = 0;

pub const GLOBAL_REMOVE: u16 = 1;

pub const BIND: u16 = 0;

} // verus!
