//! A time-locked value vault.
//!
//! Depositors lock units of a base currency before a fixed unlock time and are
//! credited, with interest, in a secondary unit derived from a stored price.
//! The credit can be redeemed once the unlock time has passed.
//!
//! * [`le`]: little-endian integers on byte sequences.
//! * [`state`]: the persisted records and their fixed-width byte layouts.
//! * [`instruction`]: the wire format of the three operation requests.
//! * [`processor`]: the state machine that applies a request to the accounts.
//! * [`error`]: the ways in which a request is turned down.

pub mod error;
pub mod instruction;
pub mod le;
pub mod processor;
pub mod state;
