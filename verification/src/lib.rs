//! A club membership state machine.
//!
//! Accounts belong to "clubs": up to 32 permission slots, each identified by
//! a distinct power-of-two bit of a 32-bit capability mask kept per account.
//! A privileged caller may register a new club (allocating the next free
//! bit), grant an account membership in a club, and revoke it. Every command
//! either fully applies and reports an event, or rejects with a typed error
//! and leaves the state untouched.

pub mod allocator;
pub mod errors;
pub mod events;
pub mod origin;
pub mod pallet;
pub mod registry;
pub mod store;
