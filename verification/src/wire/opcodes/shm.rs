//! `wl_shm`.

use vstd::prelude::*;

verus! {

pub const FORMAT: u16 = 0;

pub const CREATE_POOL: u16 = 0;

} // verus!
