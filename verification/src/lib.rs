//! A transparent LSP proxy between Helix and the Lean server, and the state
//! that its infoview shows.
//!
//! Helix talks to the proxy as if it were the Lean server. The proxy forwards
//! every frame byte for byte ([`codec`], [`forward`]). On the side it reads
//! copies of the client's messages for the cursor ([`snoop`], [`session`],
//! [`debounce`], [`tracker`]), asks Lean for the goals there ([`query`]), keeps the answers
//! from Helix, and folds them, with copies of diagnostics and progress
//! ([`tee`]), into one state ([`wire`], [`state`]) that viewers follow
//! ([`server`], [`viewer`]).
//!
//! The library decides; reading, writing, waiting and spawning are left to its
//! caller.

pub mod codec;
pub mod debounce;
pub mod envelope;
pub mod forward;
pub mod json;
pub mod query;
pub mod run;
pub mod server;
pub mod session;
pub mod snoop;
pub mod state;
pub mod strmap;
pub mod tee;
pub mod text;
pub mod tracker;
pub mod viewer;
pub mod wire;
