//! Opcodes of the core interfaces. Requests and events are numbered
//! separately within each interface.

pub mod buffer;
pub mod callback;
pub mod compositor;
pub mod display;
pub mod registry;
pub mod shm;
pub mod shm_pool;
pub mod surface;
pub mod xdg_surface;
pub mod xdg_toplevel;
pub mod xdg_wm_base;
