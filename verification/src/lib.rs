//! Decision logic of a companion app for a live game client.
//!
//! Each feature is a set of rules on plain values, or a state machine that takes
//! in what happened and says what to do next. Reading the keyboard, the
//! registry, the disk and the network, and carrying the actions out, is left to
//! the caller.
//!
//! - [`auto_range`]: holding the "show range" key while the game is focused.
//! - [`bridge`]: the local WebSocket bridge.
//! - [`broken_mods`]: the registry of mods that break a champion.
//! - [`lcu_ws`]: the game client's event feed and the ready check.
//! - [`referral`]: the referral programme.
//! - [`text`]: the string operations that the features share.
//! - [`json`], [`digest`]: JSON documents and SHA-256, from outside crates.
pub mod auto_range;
pub mod bridge;
pub mod broken_mods;
pub mod digest;
pub mod json;
pub mod lcu_ws;
pub mod referral;
pub mod text;
