//! The restart-safe peer-id allocator.
//!
//! Peer-ids come from a pseudo-random permutation of the 32-bit domain:
//! a seed pair fixes the permutation and a counter walks it, so ids leak
//! no ordering and never repeat while the counter only grows.  The
//! counter and seeds are persisted beside the store after every
//! allocation; re-reading them resumes the walk where it stopped.

use vstd::prelude::*;
use rand::RngCore;
use crate::store::DbErr;

verus! {

/// Element `n` of the pseudo-random permutation of the 32-bit domain
/// selected by the seed pair.
pub uninterp spec fn seq_element(seed_base: u32, seed_offset: u32, n: u32) -> u32;

/// Relies on `rand_unique::RandomSequenceBuilder::<u32>::new`,
/// `into_iter` and `RandomSequence::n`: the value at an index of the
/// sequence is a function of the seed pair and the index alone, and is
/// distinct from the value at every other index, the sequence being a
/// permutation of the domain.
#[verifier::external_body]
fn sequence_element(seed_base: u32, seed_offset: u32, n: u32) -> (r: u32)
    ensures
        r == seq_element(seed_base, seed_offset, n),
        forall|m: u32| m != n ==> seq_element(seed_base, seed_offset, m) != r,
{
    rand_unique::RandomSequenceBuilder::<u32>::new(seed_base, seed_offset).into_iter().n(n)
}

/// Relies on `rand::rngs::OsRng::next_u32`: 32 bits from the operating
/// system's randomness source.  Nothing is promised of the value.
#[verifier::external_body]
fn os_random_u32() -> u32 {
    rand::rngs::OsRng.next_u32()
}

/// The allocator's persistent state: the seed pair naming a permutation
/// of the 32-bit domain, and how many of its elements were handed out.
#[derive(Debug, Clone, Copy, PartialEq, Eq, Structural)]
pub struct IdSequence {
    pub seed_base: u32,
    pub seed_offset: u32,
    /// Ids already allocated; also the index the next allocation uses.
    pub n: u64,
}

impl IdSequence {
    /// The counter never passes the domain's size.
    pub open spec fn wf(self) -> bool {
        self.n <= 0x1_0000_0000
    }

    /// A fresh allocator over a randomly drawn permutation, with nothing
    /// allocated yet.
    pub fn new() -> (r: Self)
        ensures
            r.n == 0,
            r.wf(),
    {
        IdSequence { seed_base: os_random_u32(), seed_offset: os_random_u32(), n: 0 }
    }

    /// An allocator resumed from persisted state.
    pub fn resume(seed_base: u32, seed_offset: u32, n: u64) -> (r: Option<IdSequence>)
        ensures
            match r {
                Some(s) => n <= 0x1_0000_0000 && s == (IdSequence { seed_base, seed_offset, n }),
                None => n > 0x1_0000_0000,
            },
    {
        if n <= 0x1_0000_0000 {
            Some(IdSequence { seed_base, seed_offset, n })
        } else {
            None
        }
    }

    /// The next id of the sequence, or `None` once the domain is
    /// exhausted.  Every id handed out is distinct from the id of every
    /// other index of the same sequence, so successive allocations never
    /// repeat while the counter only grows.
    pub fn next(&mut self) -> (r: Option<u32>)
        requires
            old(self).wf(),
        ensures
            final(self).wf(),
            final(self).seed_base == old(self).seed_base,
            final(self).seed_offset == old(self).seed_offset,
            match r {
                Some(id) => {
                    &&& old(self).n < 0x1_0000_0000
                    &&& final(self).n == old(self).n + 1
                    &&& id == seq_element(
                        old(self).seed_base,
                        old(self).seed_offset,
                        old(self).n as u32,
                    )
                    &&& forall|m: u32| m != old(self).n as u32 ==> seq_element(
                        old(self).seed_base,
                        old(self).seed_offset,
                        m,
                    ) != id
                },
                None => old(self).n == 0x1_0000_0000 && *final(self) == *old(self),
            },
    {
        if self.n >= 0x1_0000_0000 {
            return None;
        }
        let id = sequence_element(self.seed_base, self.seed_offset, self.n as u32);
        self.n = self.n + 1;
        Some(id)
    }

    /// Allocates a peer-id, failing with [`DbErr::NoAvailableId`]
    /// exactly when the sequence is exhausted.
    pub fn generate_peer_id(&mut self) -> (r: Result<u32, DbErr>)
        requires
            old(self).wf(),
        ensures
            final(self).wf(),
            final(self).seed_base == old(self).seed_base,
            final(self).seed_offset == old(self).seed_offset,
            match r {
                Ok(id) => {
                    &&& old(self).n < 0x1_0000_0000
                    &&& final(self).n == old(self).n + 1
                    &&& id == seq_element(
                        old(self).seed_base,
                        old(self).seed_offset,
                        old(self).n as u32,
                    )
                    &&& forall|m: u32| m != old(self).n as u32 ==> seq_element(
                        old(self).seed_base,
                        old(self).seed_offset,
                        m,
                    ) != id
                },
                Err(e) => {
                    &&& e == DbErr::NoAvailableId
                    &&& old(self).n == 0x1_0000_0000
                    &&& *final(self) == *old(self)
                },
            },
    {
        match self.next() {
            Some(id) => Ok(id),
            None => Err(DbErr::NoAvailableId),
        }
    }
}

} // verus!
