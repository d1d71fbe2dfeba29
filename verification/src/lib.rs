//! A minimal display-protocol server core: the record codec, the object
//! table and protocol engine, and the pixel-frame channel to a presenter.

pub mod buffer;
pub mod bytebuf;
pub mod compositor;
pub mod compress;
pub mod connection;
pub mod error;
pub mod le;
pub mod lz4;
pub mod render;
pub mod session;
pub mod text;
pub mod wire;
