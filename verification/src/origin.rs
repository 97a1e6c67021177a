use vstd::prelude::*;

verus! {

/// The authorization capability a command arrives with.
///
/// The execution layer that sequences commands decides who the caller is;
/// the state machine only asks whether that caller holds the privileged
/// capability. Substituting another authorization policy means mapping it
/// onto this value, without touching the state machine.
#[derive(Clone, Copy, Debug, PartialEq, Eq, Structural)]
pub enum Origin {
    /// The privileged controller.
    Root,
    /// An ordinary account, not privileged to mutate club state.
    Signed(u64),
}

impl Origin {
    /// Whether this caller may mutate club and membership state.
    pub open spec fn is_privileged(self) -> bool {
        self is Root
    }

    /// The executable privilege check every command runs first.
    pub fn check_privileged(&self) -> (r: bool)
        ensures
            r == self.is_privileged(),
    {
        matches!(self, Origin::Root)
    }
}

} // verus!
