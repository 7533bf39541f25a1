//! Nickname reassignment with a crash-safe override ledger.
//!
//! The library watches members of a voice channel, proposes a new display
//! name for each of them (sourced from another member's in-game activity),
//! and records enough state in a persistent ledger, before any rename is
//! issued, that every bot-imposed name can later be reverted to the
//! member's canonical name even if the process dies mid-pass.
//!
//! - [`activity`] reads a persona label out of presence data.
//! - [`roles`] decides which members the role hierarchy lets us rename.
//! - [`assign`] builds the donor permutation and the candidate-name list.
//! - [`keys`] fixes the store's key and namespace-name encodings.
//! - [`ledger`] is the per-guild store of canonical names and overrides,
//!   with atomic batch writes, behind the trusted boundary in [`store`].
//! - [`sync`] drives the five-phase pass that reassigns a channel.
//! - [`restore`] plans the one-shot routines that undo every override.
//!
//! The caller performs all platform I/O: it hands these modules plain
//! values and carries out the rename commands they return.

pub mod activity;
pub mod assign;
pub mod keys;
pub mod ledger;
pub mod nick_overrides;
pub mod restore;
pub mod roles;
pub mod store;
pub mod sync;
