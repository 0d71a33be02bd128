//! Real-time dashboard synchronization library.
//!
//! A dashboard is a named collection of tiles, each holding an opaque JSON
//! payload. Viewers hold one duplex session per dashboard and receive pushed
//! `tile` frames whenever a tile is written, without polling. This crate holds
//! the verified core of that system: the wire-envelope codec, the tile store
//! model with its publish/subscribe fan-out, the per-session gateway that
//! services client `update` requests and broker events, and the helpers the
//! HTTP layer uses for pagination and request decisions.

pub mod codec;
pub mod dashboard;
pub mod gateway;
pub mod pages;
pub mod payload;
pub mod store;
pub mod text;
