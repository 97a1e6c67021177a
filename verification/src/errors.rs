use vstd::prelude::*;

verus! {

/// The failures a membership command can report.
///
/// Every failure aborts its command with no state change; the kinds are kept
/// distinct so the caller can tell authorization failures from domain
/// validation failures, and a redundant grant from a redundant revoke.
#[derive(Clone, Copy, Debug, PartialEq, Eq, Structural)]
pub enum Error {
    /// The caller lacks the privileged capability; checked before any
    /// domain validation.
    Unauthorized,
    /// A club number outside the 32 available slots, or the slot counter is
    /// already at its ceiling.
    IndexOutOfBounds,
    /// The referenced club number has no registered club.
    InvalidClub,
    /// The account already holds the membership the grant would set.
    AlreadyMember,
    /// The account does not hold the membership the revoke would clear.
    NotMember,
    /// A registration named an identifier that is already recorded. The
    /// registry checks this defensively; the slot allocator never hands out
    /// an identifier twice, so commands never report it.
    ClubAlreadyExists,
}

} // verus!
