use vstd::prelude::*;

use crate::allocator::club_id_at;
use crate::allocator::next_id;
use crate::errors::Error;
use crate::events::Event;
use crate::origin::Origin;
use crate::registry::ClubRegistry;
use crate::store::MembershipStore;

verus! {

/// The slot counter's initial value: a fresh state has no clubs.
#[allow(non_snake_case)]
pub fn DefaultTotalClubs() -> (r: u8)
    ensures
        r == 0,
{
    0u8
}

/// The registry half of the state is the same in both states: the same
/// slot counter and the same records.
pub open spec fn clubs_unchanged(pre: Pallet, post: Pallet) -> bool {
    &&& post.slot_count() == pre.slot_count()
    &&& post.club_records() == pre.club_records()
}

/// Every account holds the same membership mask in both states.
pub open spec fn masks_unchanged(pre: Pallet, post: Pallet) -> bool {
    forall|a: u64| post.mask(a) == pre.mask(a)
}

/// Nothing observable changed: neither the registry nor any mask.
pub open spec fn state_unchanged(pre: Pallet, post: Pallet) -> bool {
    &&& clubs_unchanged(pre, post)
    &&& masks_unchanged(pre, post)
}

/// The club membership state machine.
///
/// Owns the club registry and the membership store and sequences every
/// command over them: authorization first, then input validation, then the
/// single state mutation. A command either fully applies and returns its
/// event, or fails with one typed error and changes nothing.
pub struct Pallet {
    registry: ClubRegistry,
    store: MembershipStore,
}

impl Pallet {
    /// How many clubs have ever been registered.
    pub closed spec fn slot_count(self) -> u8 {
        self.registry.slot_count()
    }

    /// The registered club identifiers with their tags, in registration
    /// order.
    pub closed spec fn club_records(self) -> Seq<(u32, u8)> {
        self.registry.records()
    }

    /// Whether `id` names a registered club: some record carries it.
    pub open spec fn club_registered(self, id: u32) -> bool {
        exists|i: int|
            0 <= i < self.club_records().len() && (#[trigger] self.club_records()[i]).0 == id
    }

    /// The tag recorded for club `id`, zero when `id` is not registered.
    pub open spec fn club_tag(self, id: u32) -> u8 {
        crate::registry::tag_in(self.club_records(), id)
    }

    /// The membership mask of `account`.
    pub closed spec fn mask(self, account: u64) -> u32 {
        self.store.mask(account)
    }

    /// Well-formedness: the registry's records track the slot counter in
    /// strictly increasing slot order.
    pub closed spec fn wf(self) -> bool {
        self.registry.wf()
    }

    /// `club_registered` and the registry's own `contains` quantify over
    /// the same records, so they agree.
    proof fn lemma_registered_agrees(self, id: u32)
        ensures
            self.club_registered(id) == self.registry.contains(id),
    {
        if self.registry.contains(id) {
            let i = choose|i: int|
                0 <= i < self.registry.records().len() && (#[trigger] self.registry.records()[i]).0
                    == id;
            assert(self.club_records()[i].0 == id);
        }
        if self.club_registered(id) {
            let i = choose|i: int|
                0 <= i < self.club_records().len() && (#[trigger] self.club_records()[i]).0 == id;
            assert(self.registry.records()[i].0 == id);
        }
    }

    /// A fresh state: no clubs registered, every mask empty.
    pub fn new() -> (r: Pallet)
        ensures
            r.wf(),
            r.slot_count() == 0,
            r.club_records() == Seq::<(u32, u8)>::empty(),
            forall|a: u64| r.mask(a) == 0u32,
    {
        Pallet { registry: ClubRegistry::new(), store: MembershipStore::new() }
    }

    /// The identifier of the club occupying slot `number`: the power of two
    /// with bit `number` set.
    pub fn number_to_id(number: u8) -> (r: u32)
        requires
            number < 32,
        ensures
            r == club_id_at(number),
    {
        1u32 << (number as u32)
    }

    /// How many clubs have ever been registered.
    pub fn total_clubs(&self) -> (r: u8)
        ensures
            r == self.slot_count(),
    {
        self.registry.total()
    }

    /// The membership mask of `user`, empty for an account never granted
    /// anything.
    pub fn users(&self, user: u64) -> (r: u32)
        ensures
            r == self.mask(user),
    {
        self.store.mask_of(user)
    }

    /// The tag recorded for club `club_id`, zero when no such club is
    /// registered.
    pub fn clubs(&self, club_id: u32) -> (r: u8)
        ensures
            r == self.club_tag(club_id),
    {
        self.registry.get_tag(club_id)
    }

    /// Registers a new club carrying the opaque tag `identifier`.
    ///
    /// Only the privileged caller may register, and only while a slot is
    /// free: the club takes the next slot's power-of-two identifier, the
    /// slot counter advances by one, and the masks stay as they were. With
    /// all 32 slots taken the command reports `IndexOutOfBounds`.
    pub fn add_club(&mut self, origin: Origin, identifier: u8) -> (r: Result<Event, Error>)
        requires
            old(self).wf(),
        ensures
            final(self).wf(),
            !origin.is_privileged() ==> {
                &&& r == Err::<Event, Error>(Error::Unauthorized)
                &&& state_unchanged(*old(self), *final(self))
            },
            origin.is_privileged() && old(self).slot_count() >= 32 ==> {
                &&& r == Err::<Event, Error>(Error::IndexOutOfBounds)
                &&& state_unchanged(*old(self), *final(self))
            },
            origin.is_privileged() && old(self).slot_count() < 32 ==> {
                &&& r == Ok::<Event, Error>(Event::ClubCreated(club_id_at(old(self).slot_count())))
                &&& final(self).slot_count() == old(self).slot_count() + 1
                &&& final(self).club_records() == old(self).club_records().push(
                    (club_id_at(old(self).slot_count()), identifier),
                )
                &&& final(self).club_registered(club_id_at(old(self).slot_count()))
                &&& final(self).club_tag(club_id_at(old(self).slot_count())) == identifier
                &&& masks_unchanged(*old(self), *final(self))
            },
    {
        if !origin.check_privileged() {
            return Err(Error::Unauthorized);
        }
        let clubs_total = self.registry.total();
        let club_id = match next_id(clubs_total) {
            Ok(id) => id,
            Err(e) => {
                return Err(e);
            },
        };
        match self.registry.register(club_id, identifier) {
            Ok(()) => {
                proof {
                    let recs = self.club_records();
                    let n = recs.len() as int;
                    assert(recs[n - 1].0 == club_id);
                    assert forall|j: int| 0 <= j < n - 1 implies recs[j].0 != club_id by {
                        crate::registry::lemma_club_ids_distinct(
                            j as u8,
                            old(self).slot_count(),
                        );
                    }
                    crate::registry::lemma_tag_in_found(recs, club_id, n - 1);
                }
                Ok(Event::ClubCreated(club_id))
            },
            Err(e) => Err(e),
        }
    }

    /// Grants `user` membership in the club occupying slot `club_number`.
    ///
    /// Only the privileged caller may grant; the slot must be one of the 32
    /// that exist, its club must be registered, and the user must not hold
    /// the membership yet. On success exactly the club's bit is set in the
    /// user's mask and nothing else changes.
    pub fn assign_to_club(&mut self, origin: Origin, user: u64, club_number: u8) -> (r: Result<
        Event,
        Error,
    >)
        requires
            old(self).wf(),
        ensures
            final(self).wf(),
            !origin.is_privileged() ==> {
                &&& r == Err::<Event, Error>(Error::Unauthorized)
                &&& state_unchanged(*old(self), *final(self))
            },
            origin.is_privileged() && club_number >= 32 ==> {
                &&& r == Err::<Event, Error>(Error::IndexOutOfBounds)
                &&& state_unchanged(*old(self), *final(self))
            },
            origin.is_privileged() && club_number < 32 && !old(self).club_registered(
                club_id_at(club_number),
            ) ==> {
                &&& r == Err::<Event, Error>(Error::InvalidClub)
                &&& state_unchanged(*old(self), *final(self))
            },
            origin.is_privileged() && club_number < 32 && old(self).club_registered(
                club_id_at(club_number),
            ) && old(self).mask(user) & club_id_at(club_number) != 0 ==> {
                &&& r == Err::<Event, Error>(Error::AlreadyMember)
                &&& state_unchanged(*old(self), *final(self))
            },
            origin.is_privileged() && club_number < 32 && old(self).club_registered(
                club_id_at(club_number),
            ) && old(self).mask(user) & club_id_at(club_number) == 0 ==> {
                &&& r == Ok::<Event, Error>(Event::MemberGranted(user, club_id_at(club_number)))
                &&& final(self).mask(user) == old(self).mask(user) | club_id_at(club_number)
                &&& forall|b: u64| b != user ==> final(self).mask(b) == old(self).mask(b)
                &&& clubs_unchanged(*old(self), *final(self))
            },
    {
        if !origin.check_privileged() {
            return Err(Error::Unauthorized);
        }
        if club_number >= 32 {
            return Err(Error::IndexOutOfBounds);
        }
        let club_id = Self::number_to_id(club_number);
        proof {
            self.lemma_registered_agrees(club_id);
        }
        if !self.registry.contains_key(club_id) {
            return Err(Error::InvalidClub);
        }
        match self.store.grant(user, club_id) {
            Ok(()) => Ok(Event::MemberGranted(user, club_id)),
            Err(e) => Err(e),
        }
    }

    /// Revokes `user`'s membership in the club occupying slot `club_number`.
    ///
    /// Only the privileged caller may revoke; the slot must be one of the
    /// 32 that exist, its club must be registered, and the user must hold
    /// the membership. On success exactly the club's bit is cleared in the
    /// user's mask and nothing else changes.
    pub fn remove_from_club(&mut self, origin: Origin, user: u64, club_number: u8) -> (r: Result<
        Event,
        Error,
    >)
        requires
            old(self).wf(),
        ensures
            final(self).wf(),
            !origin.is_privileged() ==> {
                &&& r == Err::<Event, Error>(Error::Unauthorized)
                &&& state_unchanged(*old(self), *final(self))
            },
            origin.is_privileged() && club_number >= 32 ==> {
                &&& r == Err::<Event, Error>(Error::IndexOutOfBounds)
                &&& state_unchanged(*old(self), *final(self))
            },
            origin.is_privileged() && club_number < 32 && !old(self).club_registered(
                club_id_at(club_number),
            ) ==> {
                &&& r == Err::<Event, Error>(Error::InvalidClub)
                &&& state_unchanged(*old(self), *final(self))
            },
            origin.is_privileged() && club_number < 32 && old(self).club_registered(
                club_id_at(club_number),
            ) && old(self).mask(user) & club_id_at(club_number) == 0 ==> {
                &&& r == Err::<Event, Error>(Error::NotMember)
                &&& state_unchanged(*old(self), *final(self))
            },
            origin.is_privileged() && club_number < 32 && old(self).club_registered(
                club_id_at(club_number),
            ) && old(self).mask(user) & club_id_at(club_number) != 0 ==> {
                &&& r == Ok::<Event, Error>(Event::MemberRevoked(user, club_id_at(club_number)))
                &&& final(self).mask(user) == old(self).mask(user) & !club_id_at(club_number)
                &&& forall|b: u64| b != user ==> final(self).mask(b) == old(self).mask(b)
                &&& clubs_unchanged(*old(self), *final(self))
            },
    {
        if !origin.check_privileged() {
            return Err(Error::Unauthorized);
        }
        if club_number >= 32 {
            return Err(Error::IndexOutOfBounds);
        }
        let club_id = Self::number_to_id(club_number);
        proof {
            self.lemma_registered_agrees(club_id);
        }
        if !self.registry.contains_key(club_id) {
            return Err(Error::InvalidClub);
        }
        match self.store.revoke(user, club_id) {
            Ok(()) => Ok(Event::MemberRevoked(user, club_id)),
            Err(e) => Err(e),
        }
    }
}

/// Registered identifiers follow the slots: in a well-formed state there
/// are exactly `slot_count` records, and the `k`-th record — the club of
/// the `k`-th successful registration — carries the power-of-two
/// identifier of slot `k`. Together with `add_club`'s postcondition, the
/// slot counter after `n` successful registrations from a fresh state is
/// `n`, and a 33rd registration reports `IndexOutOfBounds`.
pub proof fn lemma_registration_order(p: Pallet)
    requires
        p.wf(),
    ensures
        p.club_records().len() == p.slot_count(),
        forall|k: int|
            0 <= k < p.club_records().len() ==> (#[trigger] p.club_records()[k]).0 == club_id_at(
                k as u8,
            ),
{
}

/// Granting is not repeatable: a successful grant of slot `n` leaves the
/// club's bit set in the mask, which is exactly the condition under which
/// `assign_to_club` reports `AlreadyMember` — so an immediately repeated
/// grant of the same club to the same account fails.
pub proof fn lemma_grant_then_grant_rejected(mask: u32, n: u8)
    requires
        n < 32,
        mask & club_id_at(n) == 0,
    ensures
        (mask | club_id_at(n)) & club_id_at(n) != 0,
{
    assert((mask | (1u32 << (n as u32))) & (1u32 << (n as u32)) != 0) by (bit_vector)
        requires
            n < 32,
    ;
}

/// Revoking is not repeatable: a successful revoke of slot `n` leaves the
/// club's bit clear in the mask, which is exactly the condition under
/// which `remove_from_club` reports `NotMember` — so an immediately
/// repeated revoke of the same club from the same account fails.
pub proof fn lemma_revoke_then_revoke_rejected(mask: u32, n: u8)
    requires
        n < 32,
        mask & club_id_at(n) != 0,
    ensures
        (mask & !club_id_at(n)) & club_id_at(n) == 0,
{
    assert((mask & !(1u32 << (n as u32))) & (1u32 << (n as u32)) == 0) by (bit_vector);
}

/// Grant and revoke round-trip: granting club `n` to an account that is
/// not a member and then revoking it again restores the account's mask
/// exactly — the two transitions `assign_to_club` and `remove_from_club`
/// describe compose to the identity.
pub proof fn lemma_grant_revoke_round_trip(mask: u32, n: u8)
    requires
        n < 32,
        mask & club_id_at(n) == 0,
    ensures
        (mask | club_id_at(n)) & !club_id_at(n) == mask,
{
    assert((mask | (1u32 << (n as u32))) & !(1u32 << (n as u32)) == mask) by (bit_vector)
        requires
            mask & (1u32 << (n as u32)) == 0,
    ;
}

/// Distinct clubs compose additively: granting or revoking slot `a`
/// touches only bit `a` of the mask, so membership in any other club `b`
/// — the mask's bit `b` — is exactly what it was before.
pub proof fn lemma_distinct_clubs_independent(mask: u32, a: u8, b: u8)
    requires
        a < 32,
        b < 32,
        a != b,
    ensures
        (mask | club_id_at(a)) & club_id_at(b) == mask & club_id_at(b),
        (mask & !club_id_at(a)) & club_id_at(b) == mask & club_id_at(b),
{
    assert((mask | (1u32 << (a as u32))) & (1u32 << (b as u32)) == mask & (1u32 << (b as u32))
        && (mask & !(1u32 << (a as u32))) & (1u32 << (b as u32)) == mask & (1u32 << (b as u32)))
        by (bit_vector)
        requires
            a < 32,
            b < 32,
            a != b,
    ;
}

} // verus!
