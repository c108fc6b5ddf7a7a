//! Session tokens for a single-process service: a registry of public
//! routes, a token store kept in an embedded key-value database, a sweeper
//! that reclaims expired sessions, and the authorization gate that decides
//! for each request whether it may pass.

pub mod clock;
pub mod error;
pub mod gate;
pub mod kv;
pub mod record;
pub mod store;
pub mod sweeper;
pub mod text;
pub mod token;
pub mod whitelist;
