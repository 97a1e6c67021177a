use vstd::prelude::*;

verus! {

/// The domain events a successful command reports.
///
/// Events are the command's return value: the caller forwards them to
/// whatever notification channel it uses, keeping the state machine free of
/// any transport.
#[derive(Clone, Copy, Debug, PartialEq, Eq, Structural)]
pub enum Event {
    /// A new club was registered under the carried identifier.
    ClubCreated(u32),
    /// The account was granted membership in the club with the carried
    /// identifier.
    MemberGranted(u64, u32),
    /// The account's membership in the club with the carried identifier was
    /// revoked.
    MemberRevoked(u64, u32),
}

} // verus!
