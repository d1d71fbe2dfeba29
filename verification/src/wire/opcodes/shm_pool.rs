//! `wl_shm_pool`.

use vstd::prelude::*;

verus! {

pub const CREATE_BUFFER: u16 = 0;

pub const DESTROY: u16 = 1;

pub const RESIZE: u16 = 2;

} // verus!
