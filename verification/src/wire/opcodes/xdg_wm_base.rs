//! `xdg_wm_base`.

use vstd::prelude::*;

verus! {

pub const PING: u16 = 0;

pub const DESTROY: u16 = 0;

pub const CREATE_POSITIONER: u16 = 1;

pub const GET_XDG_SURFACE: u16 = 2;

pub const PONG: u16 = 3;

} // verus!
