//! Extended-precision decimal amounts, kept as normalized digit strings:
//! the grammar has no range limit, so the value is a sign, a unit-digit
//! run and a fraction-digit run rather than a machine integer.

use vstd::prelude::*;
use crate::text::{
    all_digits, parse_digits, find_byte, is_digit, strip_trailing_zeros, lemma_find_byte_at,
    lemma_find_byte_none,
};

verus! {

/// Mathematical content of a `BigDecimal`: sign, unit digits (no leading
/// zero except a lone `0`), fraction digits (no trailing zero, possibly
/// empty), and never a negative zero.
pub ghost struct BigDecimalV {
    pub negative: bool,
    pub units: Seq<u8>,
    pub frac: Seq<u8>,
}

/// Leading `0` digits removed, always keeping at least one digit.
pub open spec fn strip_leading_zeros(s: Seq<u8>) -> Seq<u8>
    decreases s.len(),
{
    if s.len() > 1 && s[0] == 48 {
        strip_leading_zeros(s.drop_first())
    } else {
        s
    }
}

/// The normalized value denoted by a raw sign and digit runs.
pub open spec fn normalize_big(negative: bool, units: Seq<u8>, frac: Seq<u8>) -> BigDecimalV {
    let u = strip_leading_zeros(units);
    let f = strip_trailing_zeros(frac);
    let zero = u == seq![48u8] && f.len() == 0;
    BigDecimalV { negative: negative && !zero, units: u, frac: f }
}

/// The extended-precision decimal grammar: an optional sign, a non-empty
/// unit-digit run, and optionally `.` followed by a non-empty
/// fraction-digit run of any length.
pub open spec fn parse_big_decimal_text(s: Seq<u8>) -> Option<BigDecimalV> {
    let neg = s.len() > 0 && s[0] == 45;
    let t = if s.len() > 0 && (s[0] == 45 || s[0] == 43) {
        s.drop_first()
    } else {
        s
    };
    let d = find_byte(t, 46);
    if d == -1 {
        if parse_digits(t) is Some {
            Some(normalize_big(neg, t, Seq::empty()))
        } else {
            None
        }
    } else {
        let units = t.take(d);
        let frac = t.skip(d + 1);
        if parse_digits(units) is Some && parse_digits(frac) is Some {
            Some(normalize_big(neg, units, frac))
        } else {
            None
        }
    }
}

/// An extended-precision decimal amount.
#[derive(Clone, PartialEq, Eq, Hash, Debug)]
pub struct BigDecimal {
    negative: bool,
    units: Vec<u8>,
    frac: Vec<u8>,
}

impl View for BigDecimal {
    type V = BigDecimalV;

    closed spec fn view(&self) -> BigDecimalV {
        BigDecimalV { negative: self.negative, units: self.units@, frac: self.frac@ }
    }
}

/// Checks that `s[from..to]` is a non-empty digit run.
fn check_digit_run(s: &[u8], from: usize, to: usize) -> (r: bool)
    requires
        from <= to <= s@.len(),
    ensures
        r == (parse_digits(s@.subrange(from as int, to as int)) is Some),
{
    let ghost t = s@.subrange(from as int, to as int);
    if from == to {
        return false;
    }
    let mut i: usize = from;
    while i < to
        invariant
            from <= i <= to <= s@.len(),
            t == s@.subrange(from as int, to as int),
            all_digits(t.take(i - from)),
        decreases to - i,
    {
        let b = s[i];
        assert(t[i - from] == s@[i as int]);
        if !(48 <= b && b <= 57) {
            assert(!all_digits(t)) by {
                assert(t[i - from] == b);
            }
            return false;
        }
        proof {
            assert(t.take(i - from + 1).drop_last() =~= t.take(i - from));
            assert(all_digits(t.take(i - from + 1)));
        }
        i = i + 1;
    }
    proof {
        assert(t.take(t.len() as int) =~= t);
    }
    true
}

/// Copies `s[from..to]` with leading zeros removed, keeping one digit.
fn copy_strip_leading(s: &[u8], from: usize, to: usize) -> (r: Vec<u8>)
    requires
        from < to <= s@.len(),
    ensures
        r@ == strip_leading_zeros(s@.subrange(from as int, to as int)),
{
    let ghost t = s@.subrange(from as int, to as int);
    let mut a: usize = from;
    while a + 1 < to && s[a] == 48
        invariant
            from <= a < to <= s@.len(),
            t == s@.subrange(from as int, to as int),
            strip_leading_zeros(t) == strip_leading_zeros(s@.subrange(a as int, to as int)),
        decreases to - a,
    {
        proof {
            let cur = s@.subrange(a as int, to as int);
            assert(cur[0] == s@[a as int]);
            assert(cur.len() > 1);
            assert(cur.drop_first() =~= s@.subrange(a + 1, to as int));
        }
        a = a + 1;
    }
    proof {
        let cur = s@.subrange(a as int, to as int);
        assert(cur[0] == s@[a as int]);
        assert(strip_leading_zeros(cur) == cur);
    }
    let mut out: Vec<u8> = Vec::new();
    let mut i: usize = a;
    while i < to
        invariant
            a <= i <= to <= s@.len(),
            out@ == s@.subrange(a as int, i as int),
        decreases to - i,
    {
        out.push(s[i]);
        proof {
            assert(s@.subrange(a as int, i + 1) =~= s@.subrange(a as int, i as int).push(
                s@[i as int],
            ));
        }
        i = i + 1;
    }
    out
}

/// Copies `s[from..to]` with trailing zeros removed.
fn copy_strip_trailing(s: &[u8], from: usize, to: usize) -> (r: Vec<u8>)
    requires
        from <= to <= s@.len(),
    ensures
        r@ == strip_trailing_zeros(s@.subrange(from as int, to as int)),
{
    let ghost t = s@.subrange(from as int, to as int);
    let mut b: usize = to;
    while b > from && s[b - 1] == 48
        invariant
            from <= b <= to <= s@.len(),
            t == s@.subrange(from as int, to as int),
            strip_trailing_zeros(t) == strip_trailing_zeros(s@.subrange(from as int, b as int)),
        decreases b,
    {
        proof {
            let cur = s@.subrange(from as int, b as int);
            assert(cur.last() == s@[b - 1]);
            assert(cur.drop_last() =~= s@.subrange(from as int, b - 1));
        }
        b = b - 1;
    }
    proof {
        let cur = s@.subrange(from as int, b as int);
        if cur.len() > 0 {
            assert(cur.last() == s@[b - 1]);
        }
        assert(strip_trailing_zeros(cur) == cur);
    }
    let mut out: Vec<u8> = Vec::new();
    let mut i: usize = from;
    while i < b
        invariant
            from <= i <= b <= s@.len(),
            out@ == s@.subrange(from as int, i as int),
        decreases b - i,
    {
        out.push(s[i]);
        proof {
            assert(s@.subrange(from as int, i + 1) =~= s@.subrange(from as int, i as int).push(
                s@[i as int],
            ));
        }
        i = i + 1;
    }
    out
}

impl BigDecimal {
    pub open spec fn is_zero_digits(u: Seq<u8>, f: Seq<u8>) -> bool {
        u == seq![48u8] && f.len() == 0
    }

    /// Parses the extended-precision decimal grammar.
    pub fn parse(s: &[u8]) -> (r: Option<BigDecimal>)
        ensures
            match parse_big_decimal_text(s@) {
                Some(v) => r is Some && r.unwrap()@ == v,
                None => r is None,
            },
    {
        let n = s.len();
        let neg = n > 0 && s[0] == 45;
        let start: usize = if n > 0 && (s[0] == 45 || s[0] == 43) {
            1
        } else {
            0
        };
        let ghost t = if s@.len() > 0 && (s@[0] == 45 || s@[0] == 43) {
            s@.drop_first()
        } else {
            s@
        };
        proof {
            assert(t =~= s@.subrange(start as int, n as int));
        }
        let mut i: usize = start;
        while i < n && s[i] != 46
            invariant
                start <= i <= n == s@.len(),
                forall|k: int| start <= k < i ==> s@[k] != 46,
            decreases n - i,
        {
            i = i + 1;
        }
        proof {
            assert forall|k: int| 0 <= k < t.len() implies t[k] == s@[k + start] by {
            }
        }
        if i == n {
            proof {
                assert forall|k: int| 0 <= k < t.len() implies t[k] != 46 by {
                    assert(t[k] == s@[k + start]);
                }
                lemma_find_byte_none(t, 46);
            }
            if !check_digit_run(s, start, n) {
                return None;
            }
            let units = copy_strip_leading(s, start, n);
            let frac: Vec<u8> = Vec::new();
            let zero = units.len() == 1 && units[0] == 48;
            proof {
                assert(strip_trailing_zeros(Seq::<u8>::empty()) =~= Seq::<u8>::empty());
                let uv = strip_leading_zeros(t);
                if units.len() == 1 && units@[0] == 48 {
                    assert(units@ =~= seq![48u8]);
                }
                if uv == seq![48u8] {
                    assert(units@[0] == 48 && units.len() == 1);
                }
            }
            Some(BigDecimal { negative: neg && !zero, units, frac })
        } else {
            let dp = i;
            proof {
                assert(t[dp - start] == 46);
                lemma_find_byte_at(t, 46, dp - start);
                assert(t.take(dp - start) =~= s@.subrange(start as int, dp as int));
                assert(t.skip(dp - start + 1) =~= s@.subrange(dp + 1, n as int));
            }
            if !check_digit_run(s, start, dp) {
                return None;
            }
            if !check_digit_run(s, dp + 1, n) {
                return None;
            }
            let units = copy_strip_leading(s, start, dp);
            let frac = copy_strip_trailing(s, dp + 1, n);
            let zero = units.len() == 1 && units[0] == 48 && frac.len() == 0;
            proof {
                let uv = strip_leading_zeros(s@.subrange(start as int, dp as int));
                if units.len() == 1 && units@[0] == 48 {
                    assert(units@ =~= seq![48u8]);
                }
                if uv == seq![48u8] {
                    assert(units@[0] == 48 && units.len() == 1);
                }
            }
            Some(BigDecimal { negative: neg && !zero, units, frac })
        }
    }

    /// Whether the amount is negative.
    pub fn is_negative(&self) -> (r: bool)
        ensures
            r == self@.negative,
    {
        self.negative
    }

    /// The unit digits, most significant first.
    pub fn unit_digits(&self) -> (r: &Vec<u8>)
        ensures
            r@ == self@.units,
    {
        &self.units
    }

    /// The fraction digits; empty when the amount is whole.
    pub fn frac_digits(&self) -> (r: &Vec<u8>)
        ensures
            r@ == self@.frac,
    {
        &self.frac
    }

    /// A value-preserving copy.
    pub fn duplicate(&self) -> (r: BigDecimal)
        ensures
            r@ == self@,
    {
        let mut units: Vec<u8> = Vec::new();
        let mut i: usize = 0;
        while i < self.units.len()
            invariant
                i <= self.units@.len(),
                units@ == self.units@.take(i as int),
            decreases self.units@.len() - i,
        {
            units.push(self.units[i]);
            proof {
                assert(self.units@.take(i + 1) =~= self.units@.take(i as int).push(
                    self.units@[i as int],
                ));
            }
            i = i + 1;
        }
        let mut frac: Vec<u8> = Vec::new();
        let mut j: usize = 0;
        while j < self.frac.len()
            invariant
                j <= self.frac@.len(),
                frac@ == self.frac@.take(j as int),
            decreases self.frac@.len() - j,
        {
            frac.push(self.frac[j]);
            proof {
                assert(self.frac@.take(j + 1) =~= self.frac@.take(j as int).push(
                    self.frac@[j as int],
                ));
            }
            j = j + 1;
        }
        proof {
            assert(self.units@.take(self.units@.len() as int) =~= self.units@);
            assert(self.frac@.take(self.frac@.len() as int) =~= self.frac@);
        }
        BigDecimal { negative: self.negative, units, frac }
    }
}

} // verus!
