//! Runtime core of a global-hotkey application switcher.
//!
//! The pieces, leaves first:
//! - [`events`]: the application entry type and the intents that flow
//!   through the command bus.
//! - [`codec`]: the length-prefixed frame and message codec for the
//!   helper protocol, with a proved encode/decode round trip.
//! - [`client`]: the reconnecting socket client and helper supervision as
//!   a pure state machine, driven by the unverified shell one I/O action
//!   at a time.
//! - [`hotkey`]: the global input-capture state machine, from raw
//!   flag-changed and key-down observations to high-level intents.
//! - [`applications`]: the ordered registry of entries, the active
//!   selection, and the actions that mutate them.
//! - [`list`]: the derived filtered view — fuzzy matching, score ranking,
//!   running-first ordering, and the cap on non-running entries.
//! - [`commander`]: the FIFO command bus and the dispatch of each intent
//!   to its handler.
//! - [`tray`], [`blink`]: the tray menu identifiers and the input
//!   cursor's blink state.

pub mod applications;
pub mod blink;
pub mod events;
pub mod hotkey;
pub mod client;
pub mod codec;
pub mod commander;
pub mod list;
pub mod tray;
