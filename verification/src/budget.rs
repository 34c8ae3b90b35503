//! Byte accounting: what has been committed against a ceiling.
use vstd::prelude::*;
use crate::error::Error;

verus! {

/// What is left committed when `bytes` are given back.
pub open spec fn given_back(committed: int, bytes: int) -> int {
    if bytes <= committed {
        committed - bytes
    } else {
        0
    }
}

/// What is committed of some charges, made one after the other from the `i`th
/// on, before the first that does not fit.
pub open spec fn charged_from(charges: Seq<int>, room: int, i: int) -> int
    decreases charges.len() - i,
{
    if i < 0 || i >= charges.len() || charges[i] > room {
        0
    } else {
        charges[i] + charged_from(charges, room - charges[i], i + 1)
    }
}

/// A failure, and what a budget still allows after it: what was charged before
/// stays charged.
pub struct Fault {
    pub error: Error,
    pub room: int,
}

/// A memory budget. Charges are released by whoever made them.
#[derive(Debug, Clone, Copy)]
pub struct Budget {
    pub limit: u64,
    pub committed: u64,
}

impl Budget {
    /// The bytes that can still be committed.
    pub open spec fn room(&self) -> int {
        self.limit - self.committed
    }

    /// An untouched budget of `limit` bytes.
    pub fn new(limit: u64) -> (b: Self)
        ensures
            b.limit == limit,
            b.committed == 0,
    {
        Budget { limit, committed: 0 }
    }

    /// The bytes that can still be committed, 0 where more than the limit is.
    pub fn available(&self) -> (n: u64)
        ensures
            n == (if self.room() < 0 {
                0
            } else {
                self.room()
            }),
    {
        self.limit.saturating_sub(self.committed)
    }

    /// Commits `bytes`, or refuses and leaves the budget as it is.
    pub fn charge(&mut self, bytes: u64) -> (r: Result<(), Error>)
        ensures
            final(self).limit == old(self).limit,
            bytes <= old(self).room() ==> r is Ok && final(self).committed == old(self).committed
                + bytes,
            bytes > old(self).room() ==> r == Err::<(), Error>(Error::LimitExceeded)
                && final(self).committed == old(self).committed,
    {
        if self.committed > self.limit || bytes > self.limit - self.committed {
            return Err(Error::LimitExceeded);
        }
        self.committed = self.committed + bytes;
        Ok(())
    }

    /// Gives `bytes` back.
    pub fn release(&mut self, bytes: u64)
        ensures
            final(self).limit == old(self).limit,
            final(self).committed == given_back(old(self).committed as int, bytes as int),
    {
        self.committed = self.committed.saturating_sub(bytes);
    }
}

/// Giving back what was committed leaves what was committed before, however
/// much that was.
pub proof fn law_release_undoes_charge(committed: int, bytes: int)
    requires
        0 <= committed,
        0 <= bytes,
    ensures
        given_back(committed + bytes, bytes) == committed,
{
}

} // verus!
