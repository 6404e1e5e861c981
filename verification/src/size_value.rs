//! Nonzero byte counts with overflow-checked arithmetic.

use vstd::prelude::*;

verus! {

/// Helper type for size calculations: a nonzero number of bytes.
#[derive(Clone, Copy, Debug, PartialEq, Eq, Structural)]
pub struct SizeValue(u64);

/// Equal byte counts make equal sizes.
pub proof fn lemma_size_value_eq(a: SizeValue, b: SizeValue)
    requires
        a.spec_get() == b.spec_get(),
    ensures
        a == b,
{
}

impl SizeValue {
    /// The size as a plain byte count.
    pub closed spec fn spec_get(&self) -> u64 {
        self.0
    }

    /// Validity: a size is never zero.
    pub open spec fn wf(&self) -> bool {
        self.spec_get() > 0
    }

    /// A new size; zero is a schema-time error and is ruled out up front.
    pub fn new(val: u64) -> (r: Self)
        requires
            val > 0,
        ensures
            r.wf(),
            r.spec_get() == val,
    {
        Self(val)
    }

    /// A new size from a count already known to be nonzero.
    pub fn from(val: u64) -> (r: Self)
        requires
            val > 0,
        ensures
            r.wf(),
            r.spec_get() == val,
    {
        Self(val)
    }

    pub fn get(&self) -> (r: u64)
        ensures
            r == self.spec_get(),
    {
        self.0
    }

    /// Overflow-checked multiplication; a product beyond `u64` is a
    /// schema-time error and is ruled out up front.
    pub fn mul(self, rhs: u64) -> (r: Self)
        requires
            self.wf(),
            rhs > 0,
            self.spec_get() * rhs <= u64::MAX,
        ensures
            r.wf(),
            r.spec_get() == self.spec_get() * rhs,
    {
        proof {
            assert(self.spec_get() * rhs >= self.spec_get()) by (nonlinear_arith)
                requires
                    rhs >= 1,
                    self.spec_get() >= 1,
            ;
        }
        Self(self.0 * rhs)
    }
}

} // verus!
