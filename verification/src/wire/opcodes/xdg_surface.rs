//! `xdg_surface`.

use vstd::prelude::*;

verus! {

pub const CONFIGURE: u16 = 0;

pub const DESTROY: u16 = 0;

pub const GET_TOPLEVEL: u16 = 1;

pub const GET_POPUP: u16 = 2;

pub const SET_WINDOW_GEOMETRY: u16 = 3;

pub const ACK_CONFIGURE: u16 = 4;

} // verus!
