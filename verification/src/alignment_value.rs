//! Power-of-two byte alignments and the rounding arithmetic built on them.

use vstd::prelude::*;

verus! {

use crate::size_value::SizeValue;

/// True exactly when `n` is a power of two (1, 2, 4, 8, ...).
pub open spec fn spec_is_power_of_two(n: int) -> bool
    decreases n,
{
    if n <= 0 {
        false
    } else if n == 1 {
        true
    } else {
        n % 2 == 0 && spec_is_power_of_two(n / 2)
    }
}

/// Bytes to add to `n` to reach the next multiple of `a`.
pub open spec fn spec_padding_needed_for(n: int, a: int) -> int {
    if n % a == 0 {
        0
    } else {
        a - n % a
    }
}

/// `n` rounded up to the next multiple of `a`.
pub open spec fn spec_round_up(n: int, a: int) -> int {
    n + spec_padding_needed_for(n, a)
}

pub proof fn lemma_power_of_two_pos(n: int)
    requires
        spec_is_power_of_two(n),
    ensures
        n >= 1,
    decreases n,
{
}

/// A power of two in the recursive sense is `2^e` for some exponent.
pub proof fn lemma_power_of_two_exponent(n: int)
    requires
        spec_is_power_of_two(n),
    ensures
        exists|e: nat| n == vstd::arithmetic::power2::pow2(e),
    decreases n,
{
    vstd::arithmetic::power2::lemma2_to64();
    if n == 1 {
        assert(n == vstd::arithmetic::power2::pow2(0));
    } else {
        vstd::arithmetic::div_mod::lemma_fundamental_div_mod(n, 2);
        lemma_power_of_two_exponent(n / 2);
        let e = choose|e: nat| n / 2 == vstd::arithmetic::power2::pow2(e);
        vstd::arithmetic::power2::lemma_pow2_adds(e, 1);
        assert(n == vstd::arithmetic::power2::pow2(e + 1));
    }
}

/// A larger power of two is a multiple of a smaller one.
pub proof fn lemma_power_of_two_divides(a: int, b: int)
    requires
        spec_is_power_of_two(a),
        spec_is_power_of_two(b),
        a <= b,
    ensures
        b % a == 0,
{
    lemma_power_of_two_pos(a);
    lemma_power_of_two_pos(b);
    lemma_power_of_two_exponent(a);
    lemma_power_of_two_exponent(b);
    let e1 = choose|e: nat| a == vstd::arithmetic::power2::pow2(e);
    let e2 = choose|e: nat| b == vstd::arithmetic::power2::pow2(e);
    if e2 < e1 {
        vstd::arithmetic::power2::lemma_pow2_strictly_increases(e2, e1);
    }
    vstd::arithmetic::power2::lemma_pow2_adds((e2 - e1) as nat, e1);
    let k = vstd::arithmetic::power2::pow2((e2 - e1) as nat) as int;
    assert(b == k * a);
    vstd::arithmetic::div_mod::lemma_mod_multiples_basic(k, a);
}

/// The basic facts about rounding up to a positive alignment.
pub proof fn lemma_round_up_properties(n: int, a: int)
    requires
        n >= 0,
        a >= 1,
    ensures
        n <= spec_round_up(n, a) < n + a,
        spec_round_up(n, a) % a == 0,
        spec_padding_needed_for(n, a) < a,
        n % a == 0 ==> spec_round_up(n, a) == n,
{
    vstd::arithmetic::div_mod::lemma_mod_division_less_than_divisor(n, a);
    let r = n % a;
    if r != 0 {
        vstd::arithmetic::div_mod::lemma_fundamental_div_mod(n, a);
        let q = n / a;
        assert(spec_round_up(n, a) == a * q + a);
        assert(a * q + a == (q + 1) * a) by (nonlinear_arith);
        vstd::arithmetic::div_mod::lemma_mod_multiples_basic(q + 1, a);
    }
}

/// A multiple of `a` that `n` does not exceed is at least the rounding of `n`.
pub proof fn lemma_round_up_is_least(n: int, a: int, m: int)
    requires
        n >= 0,
        a >= 1,
        m >= n,
        m % a == 0,
    ensures
        m >= spec_round_up(n, a),
{
    lemma_round_up_properties(n, a);
    let r = spec_round_up(n, a);
    if m < r {
        vstd::arithmetic::div_mod::lemma_fundamental_div_mod(m, a);
        vstd::arithmetic::div_mod::lemma_fundamental_div_mod(r, a);
        let qm = m / a;
        let qr = r / a;
        assert(m == a * qm && r == a * qr);
        assert(qm < qr) by (nonlinear_arith)
            requires
                a >= 1,
                m < r,
                m == a * qm,
                r == a * qr,
        ;
        assert(a * qm + a <= a * qr) by (nonlinear_arith)
            requires
                a >= 1,
                qm + 1 <= qr,
        ;
        assert(m + a <= r);
        assert(n <= m && r < n + a);
        assert(false);
    }
}

/// Rounding up is monotone in the value being rounded.
pub proof fn lemma_round_up_monotone(n1: int, n2: int, a: int)
    requires
        0 <= n1 <= n2,
        a >= 1,
    ensures
        spec_round_up(n1, a) <= spec_round_up(n2, a),
{
    lemma_round_up_properties(n1, a);
    lemma_round_up_properties(n2, a);
    lemma_round_up_is_least(n1, a, spec_round_up(n2, a));
}

/// What is aligned to `b` is aligned to any power of two `a <= b`.
pub proof fn lemma_aligned_to_coarser(n: int, a: int, b: int)
    requires
        spec_is_power_of_two(a),
        spec_is_power_of_two(b),
        a <= b,
        n % b == 0,
        n >= 0,
    ensures
        n % a == 0,
{
    lemma_power_of_two_pos(a);
    lemma_power_of_two_pos(b);
    lemma_power_of_two_divides(a, b);
    vstd::arithmetic::div_mod::lemma_fundamental_div_mod(n, b);
    vstd::arithmetic::div_mod::lemma_fundamental_div_mod(b, a);
    let q = n / b;
    let k = b / a;
    assert(n == b * q && b == a * k);
    assert(n == (k * q) * a) by (nonlinear_arith)
        requires
            n == b * q,
            b == a * k,
    ;
    vstd::arithmetic::div_mod::lemma_mod_multiples_basic(k * q, a);
}

/// Equal byte counts make equal alignments.
pub proof fn lemma_alignment_value_eq(a: AlignmentValue, b: AlignmentValue)
    requires
        a.spec_get() == b.spec_get(),
    ensures
        a == b,
{
}

/// Helper type for alignment calculations: a power-of-two number of bytes.
#[derive(Clone, Copy, Debug, PartialEq, Eq, Structural)]
pub struct AlignmentValue(u64);

impl AlignmentValue {
    /// The alignment as a plain byte count.
    pub closed spec fn spec_get(&self) -> u64 {
        self.0
    }

    /// Validity: the byte count is a power of two (hence nonzero).
    pub open spec fn wf(&self) -> bool {
        spec_is_power_of_two(self.spec_get() as int)
    }

    /// Whether `val` could be an alignment at all.
    pub fn is_power_of_two(val: u64) -> (r: bool)
        ensures
            r == spec_is_power_of_two(val as int),
    {
        if val == 0 {
            return false;
        }
        let mut v: u64 = val;
        while v > 1
            invariant
                1 <= v,
                spec_is_power_of_two(val as int) == spec_is_power_of_two(v as int),
            decreases v,
        {
            if v % 2 != 0 {
                return false;
            }
            v = v / 2;
        }
        true
    }

    /// A new alignment; a byte count that is not a power of two is a
    /// schema-time error and is ruled out up front.
    pub fn new(val: u64) -> (r: Self)
        requires
            spec_is_power_of_two(val as int),
        ensures
            r.wf(),
            r.spec_get() == val,
    {
        Self(val)
    }

    /// The smallest power of two no smaller than the passed in `size`.
    pub fn from_next_power_of_two_size(size: SizeValue) -> (r: Self)
        requires
            size.wf(),
            size.spec_get() <= 0x8000_0000_0000_0000u64,
        ensures
            r.wf(),
            r.spec_get() >= size.spec_get(),
            r.spec_get() < 2 * size.spec_get(),
    {
        let n: u64 = size.get();
        let mut p: u64 = 1;
        while p < n
            invariant
                1 <= p,
                spec_is_power_of_two(p as int),
                p < 2 * n,
                n <= 0x8000_0000_0000_0000u64,
            decreases 2 * n - p,
        {
            assert(2 * p < 2 * n);
            p = p * 2;
            assert(spec_is_power_of_two(p as int));
        }
        Self(p)
    }

    pub fn get(&self) -> (r: u64)
        ensures
            r == self.spec_get(),
    {
        self.0
    }

    /// Returns the max alignment from an array of alignments.
    pub fn max<const N: usize>(input: [AlignmentValue; N]) -> (r: AlignmentValue)
        requires
            N >= 1,
        ensures
            forall|i: int| 0 <= i < N ==> input@[i].spec_get() <= r.spec_get(),
            exists|i: int| 0 <= i < N && input@[i] == r,
    {
        let mut max_val: AlignmentValue = input[0];
        let mut i: usize = 1;

        while i < N
            invariant
                1 <= i <= N,
                forall|j: int| 0 <= j < i ==> input@[j].spec_get() <= max_val.spec_get(),
                exists|j: int| 0 <= j < i && input@[j] == max_val,
            decreases N - i,
        {
            if input[i].get() > max_val.get() {
                max_val = input[i];
            }
            i = i + 1;
        }

        max_val
    }

    /// Returns true if `n` is a multiple of this alignment.
    pub fn is_aligned(&self, n: u64) -> (r: bool)
        requires
            self.wf(),
        ensures
            r == (n % self.spec_get() == 0),
    {
        proof {
            lemma_power_of_two_pos(self.spec_get() as int);
        }
        n % self.0 == 0
    }

    /// Returns the amount of padding needed so that `n + padding` will be a
    /// multiple of this alignment.
    pub fn padding_needed_for(&self, n: u64) -> (r: u64)
        requires
            self.wf(),
        ensures
            r == spec_padding_needed_for(n as int, self.spec_get() as int),
            r < self.spec_get(),
    {
        proof {
            lemma_power_of_two_pos(self.spec_get() as int);
            lemma_round_up_properties(n as int, self.spec_get() as int);
        }
        let r = n % self.0;
        if r > 0 {
            self.0 - r
        } else {
            0
        }
    }

    /// Will round up the given `n` so that the returned value will be a
    /// multiple of this alignment.
    pub fn round_up(&self, n: u64) -> (r: u64)
        requires
            self.wf(),
            spec_round_up(n as int, self.spec_get() as int) <= u64::MAX,
        ensures
            r == spec_round_up(n as int, self.spec_get() as int),
    {
        n + self.padding_needed_for(n)
    }

    /// Will round up the given `n` so that the returned value will be a
    /// multiple of this alignment.
    pub fn round_up_size(&self, n: SizeValue) -> (r: SizeValue)
        requires
            self.wf(),
            n.wf(),
            spec_round_up(n.spec_get() as int, self.spec_get() as int) <= u64::MAX,
        ensures
            r.wf(),
            r.spec_get() == spec_round_up(n.spec_get() as int, self.spec_get() as int),
    {
        proof {
            lemma_power_of_two_pos(self.spec_get() as int);
            lemma_round_up_properties(n.spec_get() as int, self.spec_get() as int);
        }
        SizeValue::new(self.round_up(n.get()))
    }
}

} // verus!
