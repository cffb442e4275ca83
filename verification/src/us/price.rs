//! Prices as whole numbers of a fraction of the currency.
use vstd::prelude::*;

verus! {

/// A price held as a whole number: the price is `inner / basis`.
#[derive(Debug, Clone, Copy, PartialEq)]
pub struct PriceBasis {
    inner: u64,
    basis: u64,
}

impl PriceBasis {
    /// The whole number that stands for the price.
    pub closed spec fn spec_inner(&self) -> u64 {
        self.inner
    }

    /// How many units of the whole number make one unit of the currency.
    pub closed spec fn spec_basis(&self) -> u64 {
        self.basis
    }

    /// The price of so many ten-thousandths.
    pub closed spec fn of_ten_thousandths(v: u32) -> Self {
        PriceBasis { inner: v as u64, basis: 10000 }
    }

    /// A price made of ten-thousandths holds their number on a basis of ten thousand.
    pub broadcast proof fn lemma_of_ten_thousandths(v: u32)
        ensures
            (#[trigger] Self::of_ten_thousandths(v)).spec_inner() == v,
            Self::of_ten_thousandths(v).spec_basis() == 10000,
    {
    }

    pub fn new(value: u64, basis: u64) -> (price: Self)
        ensures
            price.spec_inner() == value,
            price.spec_basis() == basis,
    {
        PriceBasis { inner: value, basis }
    }

    pub fn inner(&self) -> (inner: u64)
        ensures
            inner == self.spec_inner(),
    {
        self.inner
    }

    /// How many units of the whole number make one unit of the currency.
    pub fn basis(&self) -> (basis: u64)
        ensures
            basis == self.spec_basis(),
    {
        self.basis
    }

    /// Puts the price on another basis, rounding down.
    ///
    /// Both bases are meant to be powers of ten.
    pub fn change_basis(&mut self, new_basis: u64)
        requires
            old(self).spec_basis() != 0,
            old(self).spec_inner() * new_basis <= u64::MAX,
        ensures
            final(self).spec_inner() == old(self).spec_inner() * new_basis / (old(
                self,
            ).spec_basis() as int),
            final(self).spec_basis() == new_basis,
    {
        self.inner = self.inner * new_basis / self.basis;
        self.basis = new_basis;
    }

    /// Puts the price on another basis, rounding down, where the machine
    /// can: not from a basis of nothing, and not beyond the largest number.
    pub fn checked_change_basis(&mut self, new_basis: u64) -> (changed: bool)
        ensures
            changed == (old(self).spec_basis() != 0 && old(self).spec_inner() * new_basis
                <= u64::MAX),
            changed ==> final(self).spec_inner() == old(self).spec_inner() * new_basis / (old(
                self,
            ).spec_basis() as int) && final(self).spec_basis() == new_basis,
            !changed ==> *final(self) == *old(self),
    {
        if self.basis == 0 {
            return false;
        }
        match self.inner.checked_mul(new_basis) {
            Some(_) => {
                self.change_basis(new_basis);
                true
            },
            None => false,
        }
    }
}

impl Default for PriceBasis {
    /// No price, on a basis of ten thousand.
    fn default() -> (price: Self)
        ensures
            price.spec_inner() == 0,
            price.spec_basis() == 10000,
    {
        PriceBasis { inner: 0, basis: 10000 }
    }
}

impl From<u32> for PriceBasis {
    /// A price given in ten-thousandths.
    fn from(v: u32) -> (price: Self) {
        PriceBasis { inner: v as u64, basis: 10000 }
    }
}

impl vstd::std_specs::convert::FromSpecImpl<u32> for PriceBasis {
    open spec fn obeys_from_spec() -> bool {
        true
    }

    open spec fn from_spec(v: u32) -> Self {
        PriceBasis::of_ten_thousandths(v)
    }
}

} // verus!
