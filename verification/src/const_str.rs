//! A small ASCII string builder used for schema diagnostics.

use vstd::prelude::*;

verus! {

use vstd::string::StringSliceAdditionalSpecFns;

/// The decimal digits of `x`, most significant first, as ASCII bytes.
pub open spec fn spec_decimal_digits(x: nat) -> Seq<u8>
    decreases x,
{
    if x < 10 {
        seq![(48 + x) as u8]
    } else {
        spec_decimal_digits(x / 10).push((48 + x % 10) as u8)
    }
}

/// A byte-string builder for diagnostic messages.
pub struct ConstStr {
    data: Vec<u8>,
}

impl View for ConstStr {
    type V = Seq<u8>;

    closed spec fn view(&self) -> Seq<u8> {
        self.data@
    }
}

impl ConstStr {
    pub fn new() -> (r: ConstStr)
        ensures
            r@ == Seq::<u8>::empty(),
    {
        ConstStr { data: Vec::new() }
    }

    /// Appends the bytes of `s`.
    pub fn str(self, s: &str) -> (r: Self)
        ensures
            r@ == self@ + s.spec_bytes(),
    {
        let b: &[u8] = s.as_bytes();
        let mut data = self.data;
        let mut i: usize = 0;
        while i < b.len()
            invariant
                0 <= i <= b@.len(),
                data@ == self@ + b@.subrange(0, i as int),
            decreases b@.len() - i,
        {
            data.push(*vstd::slice::slice_index_get(b, i));
            proof {
                assert(data@ == self@ + b@.subrange(0, i + 1));
            }
            i = i + 1;
        }
        proof {
            assert(b@.subrange(0, b@.len() as int) == b@);
        }
        ConstStr { data }
    }

    /// Appends the decimal digits of `x`.
    pub fn u64(self, x: u64) -> (r: Self)
        ensures
            r@ == self@ + spec_decimal_digits(x as nat),
    {
        let ghost digits = spec_decimal_digits(x as nat);
        let mut rev: Vec<u8> = Vec::new();
        let mut v: u64 = x;
        rev.push((v % 10) as u8 + 48);
        proof {
            assert(rev@.reverse() =~= seq![(48 + (x as nat) % 10) as u8]);
            if x >= 10 {
                assert(digits == spec_decimal_digits((x as nat) / 10).push(
                    (48 + (x as nat) % 10) as u8,
                ));
                assert(digits =~= spec_decimal_digits((x as nat) / 10) + rev@.reverse());
            }
        }
        v = v / 10;
        while v > 0
            invariant
                rev@.len() >= 1,
                v > 0 ==> digits =~= spec_decimal_digits(v as nat) + rev@.reverse(),
                v == 0 ==> digits =~= rev@.reverse(),
            decreases v,
        {
            let ghost prev_rev = rev@;
            let ghost pv = v as nat;
            rev.push((v % 10) as u8 + 48);
            proof {
                let d = (48 + pv % 10) as u8;
                assert(rev@.reverse() =~= seq![d] + prev_rev.reverse());
                if pv >= 10 {
                    assert(spec_decimal_digits(pv) == spec_decimal_digits(pv / 10).push(d));
                    assert(spec_decimal_digits(pv / 10).push(d) + prev_rev.reverse()
                        =~= spec_decimal_digits(pv / 10) + rev@.reverse());
                } else {
                    assert(spec_decimal_digits(pv) =~= seq![d]);
                    assert(spec_decimal_digits(pv) + prev_rev.reverse() =~= rev@.reverse());
                }
            }
            v = v / 10;
        }
        let mut data = self.data;
        let n: usize = rev.len();
        let mut j: usize = 0;
        while j < n
            invariant
                0 <= j <= n,
                n == rev@.len(),
                digits =~= rev@.reverse(),
                data@ == self@ + rev@.reverse().subrange(0, j as int),
            decreases n - j,
        {
            data.push(rev[n - 1 - j]);
            proof {
                assert(rev@.reverse()[j as int] == rev@[n - 1 - j]);
                assert(data@ == self@ + rev@.reverse().subrange(0, j + 1));
            }
            j = j + 1;
        }
        proof {
            assert(rev@.reverse().subrange(0, rev@.len() as int) == rev@.reverse());
        }
        ConstStr { data }
    }

    /// Appends the bytes of another builder.
    pub fn append(self, other: &ConstStr) -> (r: Self)
        ensures
            r@ == self@ + other@,
    {
        let mut data = self.data;
        let n: usize = other.data.len();
        let mut i: usize = 0;
        while i < n
            invariant
                0 <= i <= n,
                n == other.data@.len(),
                other@ == other.data@,
                data@ == self@ + other@.subrange(0, i as int),
            decreases n - i,
        {
            data.push(other.data[i]);
            proof {
                assert(data@ == self@ + other@.subrange(0, i + 1));
            }
            i = i + 1;
        }
        proof {
            assert(other@.subrange(0, other@.len() as int) == other@);
        }
        ConstStr { data }
    }

    /// The accumulated bytes.
    pub fn as_bytes(&self) -> (r: &[u8])
        ensures
            r@ == self@,
    {
        self.data.as_slice()
    }
}

} // verus!
