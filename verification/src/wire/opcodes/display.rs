//! `wl_display`, always object 1.

use vstd::prelude::*;

verus! {

pub const ERROR: u16 = 0;

pub const DELETE_ID: u16 = 1;

pub const SYNC: u16 = 0;

pub const GET_REGISTRY: u16 = 1;

} // verus!
