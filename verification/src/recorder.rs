//! A register reader with an account of every read made through it.
//!
//! The reader sits behind the account: a register is read by [`Recorder::read_reg`] or not at
//! all, and nothing else adds to the history or takes from it.

use crate::i2c::{Read, ReadError, RegReader};
use vstd::prelude::*;

verus! {

/// A reader that keeps track, for proofs only, of every read made through it.
pub struct Recorder<R: RegReader> {
    inner: R,
    log: Ghost<Seq<Read>>,
}

impl<R: RegReader> Recorder<R> {
    /// Every read made through this reader so far.
    pub closed spec fn history(&self) -> Seq<Read> {
        self.log@
    }

    /// The reader behind the account.
    pub closed spec fn source(&self) -> R {
        self.inner
    }

    /// A reader nothing was read through yet.
    pub fn new(inner: R) -> (r: Recorder<R>)
        ensures
            r.source() == inner,
            r.history() == Seq::<Read>::empty(),
    {
        Recorder { inner, log: Ghost(Seq::empty()) }
    }

    /// The reader behind the account, to look at.
    pub fn inner(&self) -> (r: &R)
        ensures
            *r == self.source(),
    {
        &self.inner
    }

    /// Read one register.
    pub fn read_reg(&mut self, reg: u8) -> (r: Result<u8, ReadError>)
        ensures
            final(self).history() == old(self).history().push((reg, r)),
    {
        let r = self.inner.read_reg(reg);
        proof {
            self.log@ = self.log@.push((reg, r));
        }
        r
    }
}

} // verus!
