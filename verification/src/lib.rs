//! A terminal multiplexer: the rules of its daemon, its client and what they say to each other.
pub mod agreement;
pub mod client;
pub mod daemon;
pub mod emulator;
pub mod keys;
pub mod layout;
pub mod list;
pub mod osc7;
pub mod paths;
pub mod protocol;
pub mod session;
pub mod text;
pub mod view;
