//! Core of a minimal wiki-style content service: resolving untrusted page
//! identifiers to safe storage locations, the overwrite/delete semantics of a
//! flat artifact store, markdown rendering, and the two-artifact coordination
//! policy of the rendering variant.

pub mod coordinator;
pub mod encode;
pub mod render;
pub mod store;
