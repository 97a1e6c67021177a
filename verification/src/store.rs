use vstd::prelude::*;

use crate::errors::Error;

verus! {

/// The membership mask `account` holds in the entry sequence: the mask of
/// the first entry keyed by `account`, or zero when no entry is — an
/// absent account holds no memberships.
pub closed spec fn mask_in(s: Seq<(u64, u32)>, account: u64) -> u32
    decreases s.len(),
{
    if s.len() == 0 {
        0u32
    } else if s[0].0 == account {
        s[0].1
    } else {
        mask_in(s.drop_first(), account)
    }
}

proof fn lemma_mask_in_found(s: Seq<(u64, u32)>, account: u64, i: int)
    requires
        0 <= i < s.len(),
        s[i].0 == account,
        forall|j: int| 0 <= j < i ==> s[j].0 != account,
    ensures
        mask_in(s, account) == s[i].1,
    decreases i,
{
    if i > 0 {
        lemma_mask_in_found(s.drop_first(), account, i - 1);
    }
}

proof fn lemma_mask_in_absent(s: Seq<(u64, u32)>, account: u64)
    requires
        forall|j: int| 0 <= j < s.len() ==> s[j].0 != account,
    ensures
        mask_in(s, account) == 0u32,
    decreases s.len(),
{
    if s.len() > 0 {
        lemma_mask_in_absent(s.drop_first(), account);
    }
}

/// Overwriting the first entry keyed by `account` changes that account's
/// mask to the new value and no other account's mask at all.
proof fn lemma_mask_in_update(s: Seq<(u64, u32)>, account: u64, i: int, v: u32)
    requires
        0 <= i < s.len(),
        s[i].0 == account,
        forall|j: int| 0 <= j < i ==> s[j].0 != account,
    ensures
        mask_in(s.update(i, (account, v)), account) == v,
        forall|b: u64| b != account ==> mask_in(s.update(i, (account, v)), b) == mask_in(s, b),
    decreases i,
{
    let t = s.update(i, (account, v));
    if i == 0 {
        assert(t.drop_first() =~= s.drop_first());
    } else {
        lemma_mask_in_update(s.drop_first(), account, i - 1, v);
        assert(t.drop_first() =~= s.drop_first().update(i - 1, (account, v)));
    }
    assert forall|b: u64| b != account implies mask_in(t, b) == mask_in(s, b) by {
        if i == 0 {
            assert(mask_in(t, b) == mask_in(t.drop_first(), b));
            assert(mask_in(s, b) == mask_in(s.drop_first(), b));
        } else {
            if s[0].0 == b {
                assert(mask_in(t, b) == t[0].1);
            } else {
                assert(mask_in(t, b) == mask_in(t.drop_first(), b));
                assert(mask_in(s, b) == mask_in(s.drop_first(), b));
            }
        }
    }
}

/// Appending an entry for an account with no earlier entry gives that
/// account the appended mask and leaves every other account's mask alone.
proof fn lemma_mask_in_push(s: Seq<(u64, u32)>, account: u64, v: u32)
    requires
        forall|j: int| 0 <= j < s.len() ==> s[j].0 != account,
    ensures
        mask_in(s.push((account, v)), account) == v,
        forall|b: u64| b != account ==> mask_in(s.push((account, v)), b) == mask_in(s, b),
    decreases s.len(),
{
    let t = s.push((account, v));
    if s.len() == 0 {
        assert(t.drop_first() =~= Seq::<(u64, u32)>::empty());
    } else {
        lemma_mask_in_push(s.drop_first(), account, v);
        assert(t.drop_first() =~= s.drop_first().push((account, v)));
    }
    assert forall|b: u64| b != account implies mask_in(t, b) == mask_in(s, b) by {
        if s.len() == 0 {
            assert(mask_in(t, b) == mask_in(t.drop_first(), b));
        } else {
            if s[0].0 == b {
                assert(mask_in(t, b) == t[0].1);
            } else {
                assert(mask_in(t, b) == mask_in(t.drop_first(), b));
                assert(mask_in(s, b) == mask_in(s.drop_first(), b));
            }
        }
    }
}

/// Maps each account to its 32-bit membership mask. Bit `i` of a mask set
/// means the account is a member of the club occupying slot `i`.
///
/// Accounts with no entry hold the empty mask; entries are never deleted,
/// a revoke only clears the bit.
pub struct MembershipStore {
    entries: Vec<(u64, u32)>,
}

impl MembershipStore {
    /// The membership mask of `account`; the empty mask when the store has
    /// never seen the account.
    pub closed spec fn mask(self, account: u64) -> u32 {
        mask_in(self.entries@, account)
    }

    /// An empty store: every account holds the empty mask.
    pub fn new() -> (r: MembershipStore)
        ensures
            forall|a: u64| r.mask(a) == 0u32,
    {
        let r = MembershipStore { entries: Vec::new() };
        proof {
            assert forall|a: u64| r.mask(a) == 0u32 by {
                lemma_mask_in_absent(r.entries@, a);
            }
        }
        r
    }

    /// The position of the first entry keyed by `account`, if any.
    fn find_index(&self, account: u64) -> (r: Option<usize>)
        ensures
            match r {
                Some(i) => {
                    &&& i < self.entries@.len()
                    &&& self.entries@[i as int].0 == account
                    &&& forall|j: int| 0 <= j < i ==> (#[trigger] self.entries@[j]).0 != account
                },
                None => forall|j: int|
                    0 <= j < self.entries@.len() ==> (#[trigger] self.entries@[j]).0 != account,
            },
    {
        let n = self.entries.len();
        let mut i: usize = 0;
        while i < n
            invariant
                i <= n,
                n == self.entries@.len(),
                forall|j: int| 0 <= j < i ==> (#[trigger] self.entries@[j]).0 != account,
            decreases n - i,
        {
            if self.entries[i].0 == account {
                return Some(i);
            }
            i += 1;
        }
        None
    }

    /// The membership mask of `account`, the empty mask for an unknown
    /// account.
    pub fn mask_of(&self, account: u64) -> (r: u32)
        ensures
            r == self.mask(account),
    {
        match self.find_index(account) {
            Some(i) => {
                proof {
                    lemma_mask_in_found(self.entries@, account, i as int);
                }
                self.entries[i].1
            },
            None => {
                proof {
                    lemma_mask_in_absent(self.entries@, account);
                }
                0
            },
        }
    }

    /// Sets the club bit `club_id` in the account's mask.
    ///
    /// Rejects the grant when the bit is already set — a membership is
    /// granted only once — and otherwise sets exactly that bit, leaving
    /// every other account's mask unchanged.
    pub fn grant(&mut self, account: u64, club_id: u32) -> (r: Result<(), Error>)
        ensures
            old(self).mask(account) & club_id != 0 ==> {
                &&& r == Err::<(), Error>(Error::AlreadyMember)
                &&& forall|b: u64| final(self).mask(b) == old(self).mask(b)
            },
            old(self).mask(account) & club_id == 0 ==> {
                &&& r == Ok::<(), Error>(())
                &&& final(self).mask(account) == old(self).mask(account) | club_id
                &&& forall|b: u64| b != account ==> final(self).mask(b) == old(self).mask(b)
            },
    {
        match self.find_index(account) {
            Some(i) => {
                proof {
                    lemma_mask_in_found(self.entries@, account, i as int);
                }
                let current = self.entries[i].1;
                if current & club_id != 0 {
                    Err(Error::AlreadyMember)
                } else {
                    proof {
                        lemma_mask_in_update(self.entries@, account, i as int, current | club_id);
                    }
                    self.entries.set(i, (account, current | club_id));
                    Ok(())
                }
            },
            None => {
                proof {
                    lemma_mask_in_absent(self.entries@, account);
                    assert(0u32 & club_id == 0 && 0u32 | club_id == club_id) by (bit_vector);
                    lemma_mask_in_push(self.entries@, account, club_id);
                }
                self.entries.push((account, club_id));
                Ok(())
            },
        }
    }

    /// Clears the club bit `club_id` in the account's mask.
    ///
    /// Rejects the revoke when the bit is already clear — only a held
    /// membership can be revoked — and otherwise clears exactly that bit,
    /// leaving every other account's mask unchanged.
    pub fn revoke(&mut self, account: u64, club_id: u32) -> (r: Result<(), Error>)
        ensures
            old(self).mask(account) & club_id == 0 ==> {
                &&& r == Err::<(), Error>(Error::NotMember)
                &&& forall|b: u64| final(self).mask(b) == old(self).mask(b)
            },
            old(self).mask(account) & club_id != 0 ==> {
                &&& r == Ok::<(), Error>(())
                &&& final(self).mask(account) == old(self).mask(account) & !club_id
                &&& forall|b: u64| b != account ==> final(self).mask(b) == old(self).mask(b)
            },
    {
        match self.find_index(account) {
            Some(i) => {
                proof {
                    lemma_mask_in_found(self.entries@, account, i as int);
                }
                let current = self.entries[i].1;
                if current & club_id == 0 {
                    Err(Error::NotMember)
                } else {
                    proof {
                        lemma_mask_in_update(self.entries@, account, i as int, current & !club_id);
                    }
                    self.entries.set(i, (account, current & !club_id));
                    Ok(())
                }
            },
            None => {
                proof {
                    lemma_mask_in_absent(self.entries@, account);
                    assert(0u32 & club_id == 0) by (bit_vector);
                }
                Err(Error::NotMember)
            },
        }
    }
}

} // verus!
