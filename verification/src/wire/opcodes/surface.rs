//! `wl_surface`.

use vstd::prelude::*;

verus! {

pub const ENTER: u16 = 0;

pub const LEAVE: u16 = 1;

pub const DESTROY: u16 = 0;

pub const ATTACH: u16 = 1;

pub const DAMAGE: u16 = 2;

pub const FRAME: u16 = 3;

pub const SET_OPAQUE_REGION: u16 = 4;

pub const SET_INPUT_REGION: u16 = 5;

pub const COMMIT: u16 = 6;

pub const SET_BUFFER_TRANSFORM: u16 = 7;

pub const SET_BUFFER_SCALE: u16 = 8;

pub const DAMAGE_BUFFER: u16 = 9;

} // verus!
