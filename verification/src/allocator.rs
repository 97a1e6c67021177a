use vstd::prelude::*;

use crate::errors::Error;

verus! {

/// The identifier of the club occupying `slot`: the power of two with bit
/// `slot` set. A club's identifier doubles as its bit in every account's
/// membership mask.
pub open spec fn club_id_at(slot: u8) -> u32 {
    1u32 << (slot as u32)
}

/// Allocates the identifier for the next club.
///
/// `current_count` counts the clubs registered so far; the slot it names is
/// the next free one. Only 32 slots fit a 32-bit mask, so a counter at or
/// past 32 is rejected rather than letting the identifier wrap: the 33rd
/// slot's identifier would not fit the mask.
pub fn next_id(current_count: u8) -> (r: Result<u32, Error>)
    ensures
        current_count < 32 ==> r == Ok::<u32, Error>(club_id_at(current_count)),
        current_count >= 32 ==> r == Err::<u32, Error>(Error::IndexOutOfBounds),
{
    if current_count >= 32 {
        Err(Error::IndexOutOfBounds)
    } else {
        Ok(1u32 << (current_count as u32))
    }
}

} // verus!
