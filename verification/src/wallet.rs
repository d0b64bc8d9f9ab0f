use vstd::prelude::*;
use crate::amount::Amount;

verus! {

/// Per-account balance: available and held funds, their sum, and the lock
/// flag that a chargeback sets forever. All monetary fields count
/// ten-thousandths, as `Amount` does.
#[derive(Clone, Copy, PartialEq, Eq, Structural, Debug)]
pub struct Wallet {
    pub available: u64,
    pub held: u64,
    pub total: u64,
    pub locked: bool,
}

impl Wallet {
    /// The balance invariant: the total is exactly available plus held.
    pub open spec fn wf(self) -> bool {
        self.total == self.available + self.held
    }

    pub fn locked(&self) -> (r: bool)
        ensures
            r == self.locked,
    {
        self.locked
    }

    /// Adds to the available funds; refused (returning `false`) only when
    /// the total would no longer be representable.
    pub fn deposit(&mut self, amount: Amount) -> (applied: bool)
        requires
            old(self).wf(),
        ensures
            final(self).wf(),
            applied == (old(self).total + amount.units <= u64::MAX),
            applied ==> *final(self) == (Wallet {
                available: (old(self).available + amount.units) as u64,
                total: (old(self).total + amount.units) as u64,
                ..*old(self)
            }),
            !applied ==> *final(self) == *old(self),
    {
        if amount.units <= u64::MAX - self.total {
            self.available = self.available + amount.units;
            self.total = self.total + amount.units;
            true
        } else {
            false
        }
    }

    /// Removes from the available funds when they suffice; otherwise the
    /// event is dropped and nothing changes.
    pub fn withdrawal(&mut self, amount: Amount) -> (applied: bool)
        requires
            old(self).wf(),
        ensures
            final(self).wf(),
            applied == (old(self).available >= amount.units),
            applied ==> *final(self) == (Wallet {
                available: (old(self).available - amount.units) as u64,
                total: (old(self).total - amount.units) as u64,
                ..*old(self)
            }),
            !applied ==> *final(self) == *old(self),
    {
        if self.available >= amount.units {
            self.available = self.available - amount.units;
            self.total = self.total - amount.units;
            true
        } else {
            false
        }
    }

    /// Moves funds from available to held when the available funds suffice.
    pub fn dispute(&mut self, amount: Amount) -> (applied: bool)
        requires
            old(self).wf(),
        ensures
            final(self).wf(),
            applied == (old(self).available >= amount.units),
            applied ==> *final(self) == (Wallet {
                available: (old(self).available - amount.units) as u64,
                held: (old(self).held + amount.units) as u64,
                ..*old(self)
            }),
            !applied ==> *final(self) == *old(self),
    {
        if self.available >= amount.units {
            self.available = self.available - amount.units;
            self.held = self.held + amount.units;
            true
        } else {
            false
        }
    }

    /// Returns held funds to available.
    pub fn resolve(&mut self, amount: Amount)
        requires
            old(self).wf(),
            amount.units <= old(self).held,
        ensures
            final(self).wf(),
            *final(self) == (Wallet {
                available: (old(self).available + amount.units) as u64,
                held: (old(self).held - amount.units) as u64,
                ..*old(self)
            }),
    {
        self.available = self.available + amount.units;
        self.held = self.held - amount.units;
    }

    /// Removes held funds from the account and locks it.
    pub fn chargeback(&mut self, amount: Amount)
        requires
            old(self).wf(),
            amount.units <= old(self).held,
        ensures
            final(self).wf(),
            *final(self) == (Wallet {
                held: (old(self).held - amount.units) as u64,
                total: (old(self).total - amount.units) as u64,
                locked: true,
                ..*old(self)
            }),
    {
        self.held = self.held - amount.units;
        self.total = self.total - amount.units;
        self.locked = true;
    }
}

impl Default for Wallet {
    /// A fresh account: no funds, not locked.
    fn default() -> (w: Wallet)
        ensures
            w == (Wallet { available: 0, held: 0, total: 0, locked: false }),
    {
        Wallet { available: 0, held: 0, total: 0, locked: false }
    }
}

} // verus!
