use vstd::prelude::*;

verus! {

/// Number of fractional decimal digits an [`Amount`] keeps.
pub const DECIMALS_PRECISION: u32 = 4;

/// Number of stored units in one whole currency unit (ten to the power of
/// [`DECIMALS_PRECISION`]).
pub const SCALE: i64 = 10000;

/// A monetary quantity stored as a count of ten-thousandths.
///
/// Its view is that count as a mathematical integer.
#[derive(Clone, Copy, Debug, PartialEq, Eq, Structural, PartialOrd, Ord, Hash)]
pub struct Amount {
    inner: i64,
}

/// Why a decimal text could not become an [`Amount`].
#[derive(Clone, Copy, Debug, PartialEq, Eq, Structural)]
pub enum AmountError {
    /// The text is not a plain decimal number, or it does not fit the
    /// 64-bit range once scaled.
    InvalidAmount,
}

/// Whether `v` is representable as an `i64`.
pub open spec fn in_i64(v: int) -> bool {
    i64::MIN <= v <= i64::MAX
}

impl View for Amount {
    type V = int;

    closed spec fn view(&self) -> int {
        self.inner as int
    }
}

impl Default for Amount {
    fn default() -> (r: Amount)
        ensures
            r@ == 0,
    {
        Amount { inner: 0 }
    }
}

impl Amount {
    /// Every amount is a value in the `i64` range.
    pub broadcast proof fn lemma_in_range(a: Amount)
        ensures
            #[trigger] in_i64(a@),
    {
    }

    /// The amount holding exactly `units` ten-thousandths.
    pub fn from_units(units: i64) -> (r: Amount)
        ensures
            r@ == units,
    {
        Amount { inner: units }
    }

    /// The number of ten-thousandths this amount holds.
    pub fn units(&self) -> (r: i64)
        ensures
            r == self@,
    {
        self.inner
    }

    /// Exact sum; the caller guarantees it fits.
    pub fn add(self, rhs: Amount) -> (r: Amount)
        requires
            in_i64(self@ + rhs@),
        ensures
            r@ == self@ + rhs@,
    {
        Amount { inner: self.inner + rhs.inner }
    }

    /// Exact difference; the caller guarantees it fits.
    pub fn sub(self, rhs: Amount) -> (r: Amount)
        requires
            in_i64(self@ - rhs@),
        ensures
            r@ == self@ - rhs@,
    {
        Amount { inner: self.inner - rhs.inner }
    }

    /// Exact sum, or `None` where it leaves the 64-bit range.
    pub fn checked_add(self, rhs: Amount) -> (r: Option<Amount>)
        ensures
            r is Some <==> in_i64(self@ + rhs@),
            r matches Some(s) ==> s@ == self@ + rhs@,
    {
        match self.inner.checked_add(rhs.inner) {
            Some(v) => Some(Amount { inner: v }),
            None => None,
        }
    }

    /// Exact difference, or `None` where it leaves the 64-bit range.
    pub fn checked_sub(self, rhs: Amount) -> (r: Option<Amount>)
        ensures
            r is Some <==> in_i64(self@ - rhs@),
            r matches Some(s) ==> s@ == self@ - rhs@,
    {
        match self.inner.checked_sub(rhs.inner) {
            Some(v) => Some(Amount { inner: v }),
            None => None,
        }
    }

    /// Whether `self` is strictly smaller than `rhs`.
    pub fn lt(&self, rhs: &Amount) -> (r: bool)
        ensures
            r == (self@ < rhs@),
    {
        self.inner < rhs.inner
    }
}

} // verus!
