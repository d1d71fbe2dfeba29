//! `xdg_toplevel`.

use vstd::prelude::*;

verus! {

pub const CONFIGURE: u16 = 0;

pub const CLOSE: u16 = 1;

pub const DESTROY: u16 = 0;

pub const SET_PARENT: u16 = 1;

pub const SET_TITLE: u16 = 2;

pub const SET_APP_ID: u16 = 3;

pub const SHOW_WINDOW_MENU: u16 = 4;

pub const MOVE: u16 = 5;

pub const RESIZE: u16 = 6;

pub const SET_MAX_SIZE: u16 = 7;

pub const SET_MIN_SIZE: u16 = 8;

pub const SET_MAXIMIZED: u16 = 9;

pub const UNSET_MAXIMIZED: u16 = 10;

pub const SET_FULLSCREEN: u16 = 11;

pub const UNSET_FULLSCREEN: u16 = 12;

pub const SET_MINIMIZED: u16 = 13;

} // verus!
