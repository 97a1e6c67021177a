use vstd::prelude::*;

use crate::allocator::club_id_at;
use crate::errors::Error;

verus! {

/// Two distinct slots have distinct club identifiers: the powers of two
/// with different exponents below 32 differ.
pub proof fn lemma_club_ids_distinct(a: u8, b: u8)
    requires
        a < 32,
        b < 32,
        a != b,
    ensures
        club_id_at(a) != club_id_at(b),
{
    assert(1u32 << (a as u32) != 1u32 << (b as u32)) by (bit_vector)
        requires
            a < 32,
            b < 32,
            a != b,
    ;
}

/// The tag recorded for `id`: the tag of the first record carrying `id`,
/// or zero when no record does.
pub open spec fn tag_in(s: Seq<(u32, u8)>, id: u32) -> u8
    decreases s.len(),
{
    if s.len() == 0 {
        0u8
    } else if s[0].0 == id {
        s[0].1
    } else {
        tag_in(s.drop_first(), id)
    }
}

pub(crate) proof fn lemma_tag_in_found(s: Seq<(u32, u8)>, id: u32, i: int)
    requires
        0 <= i < s.len(),
        s[i].0 == id,
        forall|j: int| 0 <= j < i ==> s[j].0 != id,
    ensures
        tag_in(s, id) == s[i].1,
    decreases i,
{
    if i > 0 {
        lemma_tag_in_found(s.drop_first(), id, i - 1);
    }
}

proof fn lemma_tag_in_absent(s: Seq<(u32, u8)>, id: u32)
    requires
        forall|j: int| 0 <= j < s.len() ==> s[j].0 != id,
    ensures
        tag_in(s, id) == 0u8,
    decreases s.len(),
{
    if s.len() > 0 {
        lemma_tag_in_absent(s.drop_first(), id);
    }
}

/// Records which club identifiers have been allocated, with their opaque
/// one-byte tag, and counts the clubs ever registered.
///
/// Registration happens in strictly increasing slot order and records are
/// never mutated or deleted, so the record at position `k` always carries
/// the identifier of slot `k`.
pub struct ClubRegistry {
    slot_count: u8,
    records: Vec<(u32, u8)>,
}

impl ClubRegistry {
    /// The registered identifiers with their tags, in registration order.
    pub closed spec fn records(self) -> Seq<(u32, u8)> {
        self.records@
    }

    /// How many clubs have ever been registered. Monotonic, never above 32.
    pub closed spec fn slot_count(self) -> u8 {
        self.slot_count
    }

    /// Whether a record for `id` exists, that is, whether `id` names a
    /// registered club.
    pub open spec fn contains(self, id: u32) -> bool {
        exists|i: int| 0 <= i < self.records().len() && (#[trigger] self.records()[i]).0 == id
    }

    /// The tag stored for `id`, zero when `id` is not registered.
    pub open spec fn tag_of(self, id: u32) -> u8 {
        tag_in(self.records(), id)
    }

    /// Well-formedness: the counter counts the records, stays within the 32
    /// available slots, and the record at position `k` carries slot `k`'s
    /// identifier.
    pub open spec fn wf(self) -> bool {
        &&& self.slot_count() <= 32
        &&& self.records().len() == self.slot_count()
        &&& forall|k: int|
            0 <= k < self.records().len() ==> (#[trigger] self.records()[k]).0 == club_id_at(
                k as u8,
            )
    }

    /// An empty registry: no clubs, counter at zero.
    pub fn new() -> (r: ClubRegistry)
        ensures
            r.wf(),
            r.slot_count() == 0,
            r.records() == Seq::<(u32, u8)>::empty(),
    {
        let r = ClubRegistry { slot_count: 0, records: Vec::new() };
        proof {
            assert(r.records() =~= Seq::<(u32, u8)>::empty());
        }
        r
    }

    /// The number of clubs registered so far.
    pub fn total(&self) -> (r: u8)
        ensures
            r == self.slot_count(),
    {
        self.slot_count
    }

    /// Whether `id` names a registered club.
    pub fn contains_key(&self, id: u32) -> (r: bool)
        ensures
            r == self.contains(id),
    {
        let n = self.records.len();
        let mut i: usize = 0;
        while i < n
            invariant
                i <= n,
                n == self.records().len(),
                forall|j: int| 0 <= j < i ==> (#[trigger] self.records()[j]).0 != id,
            decreases n - i,
        {
            if self.records[i].0 == id {
                return true;
            }
            i += 1;
        }
        false
    }

    /// The tag stored for `id`, zero when `id` is not registered.
    pub fn get_tag(&self, id: u32) -> (r: u8)
        ensures
            r == self.tag_of(id),
    {
        let n = self.records.len();
        let mut i: usize = 0;
        while i < n
            invariant
                i <= n,
                n == self.records().len(),
                forall|j: int| 0 <= j < i ==> (#[trigger] self.records()[j]).0 != id,
            decreases n - i,
        {
            if self.records[i].0 == id {
                proof {
                    lemma_tag_in_found(self.records(), id, i as int);
                }
                return self.records[i].1;
            }
            i += 1;
        }
        proof {
            lemma_tag_in_absent(self.records(), id);
        }
        0
    }

    /// Inserts the record for a newly allocated club and advances the slot
    /// counter.
    ///
    /// A duplicate identifier is rejected defensively. When the caller
    /// follows the allocation discipline — the identifier is the one the
    /// allocator produced for the next free slot — the rejection can never
    /// fire, every earlier record carries a lower slot's identifier, and
    /// well-formedness is preserved.
    pub fn register(&mut self, id: u32, tag: u8) -> (r: Result<(), Error>)
        requires
            old(self).wf(),
        ensures
            old(self).contains(id) ==> {
                &&& r == Err::<(), Error>(Error::ClubAlreadyExists)
                &&& final(self).records() == old(self).records()
                &&& final(self).slot_count() == old(self).slot_count()
                &&& final(self).wf()
            },
            !old(self).contains(id) ==> {
                &&& r == Ok::<(), Error>(())
                &&& final(self).records() == old(self).records().push((id, tag))
                &&& final(self).slot_count() == old(self).slot_count() + 1
            },
            old(self).slot_count() < 32 && id == club_id_at(old(self).slot_count()) ==> {
                &&& r == Ok::<(), Error>(())
                &&& final(self).wf()
            },
    {
        proof {
            if self.slot_count() < 32 && id == club_id_at(self.slot_count()) && self.contains(id) {
                let i = choose|i: int|
                    0 <= i < self.records().len() && (#[trigger] self.records()[i]).0 == id;
                lemma_club_ids_distinct(i as u8, self.slot_count());
            }
        }
        if self.contains_key(id) {
            return Err(Error::ClubAlreadyExists);
        }
        self.records.push((id, tag));
        self.slot_count += 1;
        Ok(())
    }
}

} // verus!
