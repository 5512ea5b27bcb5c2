//! A small RESP-speaking key/value store: a verified wire-frame parser and
//! serializer, a command interpreter and a store with lazy expiry.
pub mod buffer;
pub mod bufs;
pub mod command;
pub mod decimal;
pub mod error;
pub mod expiring_cache;
pub mod frame;
pub mod frame_laws;
pub mod store;
pub mod text;
