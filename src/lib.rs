//! Directory authentication and claims mapping for an OAuth2 login and
//! consent provider.

pub mod text;
pub mod keymap;
pub mod parse;
pub mod filter;
pub mod claims;
pub mod directory;
pub mod entry;
pub mod flow;
