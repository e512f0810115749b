//! Fixed-point decimal amounts: a signed 128-bit count of atto-units
//! (10^-18), the canonical precision of fungible resource quantities.

use vstd::prelude::*;
use crate::text::{
    all_digits, digits_val, parse_digits, pow10, dec_digits, zeros, strip_trailing_zeros,
    strip_keeps_val, find_byte, is_digit, parse_digit_run, push_dec_digits,
    lemma_digits_val_nonneg, lemma_digits_val_bound, lemma_dec_digits_ok, lemma_dec_digits_len,
    lemma_digits_val_concat, lemma_zeros_digits, lemma_strip_trailing_zeros, lemma_pow10_adds,
    lemma_pow10_le, lemma_pow10_18, lemma_pow10_pos, lemma_find_byte_at, lemma_find_byte_none,
    comma_free, is_space,
};

verus! {

/// Atto-units per whole unit.
pub const DECIMAL_SCALE: i128 = 1000000000000000000;

/// A decimal amount.  The mathematical value of `d` is `d@` atto-units,
/// i.e. `d@ / 10^18` whole units.
#[derive(Clone, Copy, PartialEq, Eq, Structural, Hash, Debug)]
pub struct Decimal {
    attos: i128,
}

impl View for Decimal {
    type V = int;

    closed spec fn view(&self) -> int {
        self.attos as int
    }
}

/// Atto-unit value of the decimal grammar, before any range restriction:
/// an optional sign, a unit part, and an optional fraction part of one to
/// eighteen digits after `.`.
pub open spec fn decimal_attos(s: Seq<u8>) -> Option<int> {
    let neg = s.len() > 0 && s[0] == 45;
    let t = if s.len() > 0 && (s[0] == 45 || s[0] == 43) {
        s.drop_first()
    } else {
        s
    };
    let d = find_byte(t, 46);
    if d == -1 {
        match parse_digits(t) {
            Some(v) => Some(
                if neg {
                    -v * DECIMAL_SCALE
                } else {
                    v * DECIMAL_SCALE
                },
            ),
            None => None,
        }
    } else {
        let units = t.take(d);
        let frac = t.skip(d + 1);
        if 1 <= frac.len() && frac.len() <= 18 {
            match (parse_digits(units), parse_digits(frac)) {
                (Some(u), Some(f)) => {
                    let m = u * DECIMAL_SCALE + f * pow10((18 - frac.len()) as nat);
                    Some(
                        if neg {
                            -m
                        } else {
                            m
                        },
                    )
                },
                _ => None,
            }
        } else {
            None
        }
    }
}

/// The decimal grammar: `decimal_attos` restricted to the `i128` range.
pub open spec fn parse_decimal_text(s: Seq<u8>) -> Option<int> {
    match decimal_attos(s) {
        Some(v) => if i128::MIN <= v && v <= i128::MAX {
            Some(v)
        } else {
            None
        },
        None => None,
    }
}

/// Canonical text of an atto-unit value: sign, unit digits, and the
/// fraction digits with trailing zeros removed (no `.` when zero).
pub open spec fn decimal_text(v: int) -> Seq<u8> {
    let m = if v < 0 {
        -v
    } else {
        v
    };
    let u = m / (DECIMAL_SCALE as int);
    let f = m % (DECIMAL_SCALE as int);
    let sign: Seq<u8> = if v < 0 {
        seq![45u8]
    } else {
        Seq::empty()
    };
    if f == 0 {
        sign + dec_digits(u)
    } else {
        sign + dec_digits(u) + seq![46u8] + strip_trailing_zeros(zeros(18 - dec_digits(f).len()) + dec_digits(f))
    }
}

/// Negates a magnitude that fits the signed range.
fn neg_mag(m: u128) -> (r: i128)
    requires
        m <= 170141183460469231731687303715884105728u128,
    ensures
        r == -(m as int),
{
    if m == 0 {
        0
    } else {
        let m1 = (m - 1) as i128;
        -m1 - 1
    }
}

/// Computes `10^n`.
fn pow10_u128(n: usize) -> (r: u128)
    requires
        n <= 18,
    ensures
        r == pow10(n as nat),
{
    proof {
        lemma_pow10_18();
    }
    let mut r: u128 = 1;
    let mut i: usize = 0;
    while i < n
        invariant
            i <= n <= 18,
            r == pow10(i as nat),
        decreases n - i,
    {
        proof {
            assert(pow10((i + 1) as nat) == 10 * pow10(i as nat));
            lemma_pow10_le((i + 1) as nat, 18);
            lemma_pow10_18();
            assert(r * 10 == pow10((i + 1) as nat));
            assert(r * 10 <= 1000000000000000000);
        }
        r = r * 10;
        i = i + 1;
    }
    r
}

impl Decimal {
    /// Wraps a raw atto-unit count.
    pub fn from_attos(attos: i128) -> (r: Decimal)
        ensures
            r@ == attos,
    {
        Decimal { attos }
    }

    /// The raw atto-unit count.
    pub fn attos(&self) -> (r: i128)
        ensures
            r == self@,
    {
        self.attos
    }

    /// The amount of `n` whole units.
    pub fn from_units(n: u64) -> (r: Decimal)
        ensures
            r@ == n * DECIMAL_SCALE,
    {
        proof {
            assert((n as int) * (DECIMAL_SCALE as int) <= (u64::MAX as int) * (
            DECIMAL_SCALE as int)) by (nonlinear_arith)
                requires
                    n <= u64::MAX,
            ;
            assert((n as int) * (DECIMAL_SCALE as int) >= 0) by (nonlinear_arith);
        }
        Decimal { attos: (n as i128) * DECIMAL_SCALE }
    }

    /// Parses the decimal grammar.
    pub fn parse(s: &[u8]) -> (r: Option<Decimal>)
        ensures
            match parse_decimal_text(s@) {
                Some(v) => r is Some && r.unwrap()@ == v,
                None => r is None,
            },
    {
        let n = s.len();
        let neg = n > 0 && s[0] == 45;
        let start: usize = if n > 0 && (s[0] == 45 || s[0] == 43) {
            1
        } else {
            0
        };
        let ghost t = if s@.len() > 0 && (s@[0] == 45 || s@[0] == 43) {
            s@.drop_first()
        } else {
            s@
        };
        proof {
            assert(t =~= s@.subrange(start as int, n as int));
        }
        // locate the first `.` inside the digit region
        let mut i: usize = start;
        while i < n && s[i] != 46
            invariant
                start <= i <= n == s@.len(),
                forall|k: int| start <= k < i ==> s@[k] != 46,
            decreases n - i,
        {
            i = i + 1;
        }
        let dot: Option<usize> = if i < n {
            Some(i)
        } else {
            None
        };
        proof {
            assert forall|k: int| 0 <= k < t.len() implies t[k] == s@[k + start] by {
            }
        }
        match dot {
            None => {
                proof {
                    assert forall|k: int| 0 <= k < t.len() implies t[k] != 46 by {
                        assert(t[k] == s@[k + start]);
                    }
                    lemma_find_byte_none(t, 46);
                }
                let uv = parse_digit_run(s, start, n);
                proof {
                    if parse_digits(t) is Some {
                        lemma_digits_val_nonneg(t);
                    }
                }
                match uv {
                    None => {
                        proof {
                            if parse_digits(t) is Some {
                                let v = parse_digits(t).unwrap();
                                assert(v > u128::MAX);
                                assert(v * (DECIMAL_SCALE as int) >= v * 1) by (nonlinear_arith)
                                    requires
                                        v >= 0,
                                        DECIMAL_SCALE >= 1,
                                ;
                            }
                        }
                        None
                    },
                    Some(u) => {
                        if u > 170141183460469231731u128 {
                            proof {
                                let v = parse_digits(t).unwrap();
                                if v <= u128::MAX {
                                    assert(u == v);
                                }
                                assert(v * (DECIMAL_SCALE as int) >= 170141183460469231732 * (
                                DECIMAL_SCALE as int)) by (nonlinear_arith)
                                    requires
                                        v >= 170141183460469231732,
                                        DECIMAL_SCALE as int > 0,
                                ;
                            }
                            None
                        } else {
                            let m = u * (DECIMAL_SCALE as u128);
                            proof {
                                let v = parse_digits(t).unwrap();
                                assert(u == v);
                            }
                            if neg {
                                Some(Decimal { attos: neg_mag(m) })
                            } else {
                                Some(Decimal { attos: m as i128 })
                            }
                        }
                    },
                }
            },
            Some(dp) => {
                proof {
                    assert(t[dp - start] == 46);
                    lemma_find_byte_at(t, 46, dp - start);
                }
                let ghost d = (dp - start) as int;
                let ghost units = t.take(d);
                let ghost frac = t.skip(d + 1);
                proof {
                    assert(units =~= s@.subrange(start as int, dp as int));
                    assert(frac =~= s@.subrange(dp + 1, n as int));
                }
                let flen = n - dp - 1;
                if flen < 1 || flen > 18 {
                    return None;
                }
                let uv = parse_digit_run(s, start, dp);
                proof {
                    if parse_digits(units) is Some {
                        lemma_digits_val_nonneg(units);
                    }
                    if parse_digits(frac) is Some {
                        lemma_digits_val_nonneg(frac);
                    }
                }
                let u = match uv {
                    None => {
                        proof {
                            if parse_digits(units) is Some && parse_digits(frac) is Some {
                                let vu = parse_digits(units).unwrap();
                                let vf = parse_digits(frac).unwrap();
                                assert(vu > u128::MAX);
                                assert(vu * (DECIMAL_SCALE as int) >= vu * 1) by (nonlinear_arith)
                                    requires
                                        vu >= 0,
                                        DECIMAL_SCALE >= 1,
                                ;
                                lemma_pow10_pos((18 - frac.len()) as nat);
                                assert(vf * pow10((18 - frac.len()) as nat) >= 0)
                                    by (nonlinear_arith)
                                    requires
                                        vf >= 0,
                                        pow10((18 - frac.len()) as nat) >= 1,
                                ;
                            }
                        }
                        return None;
                    },
                    Some(u) => u,
                };
                let fv = parse_digit_run(s, dp + 1, n);
                let f = match fv {
                    None => {
                        proof {
                            if parse_digits(units) is Some && parse_digits(frac) is Some {
                                let vu = parse_digits(units).unwrap();
                                let vf = parse_digits(frac).unwrap();
                                assert(vf > u128::MAX);
                                lemma_pow10_pos((18 - frac.len()) as nat);
                                assert(vf * pow10((18 - frac.len()) as nat) >= vf * 1)
                                    by (nonlinear_arith)
                                    requires
                                        vf >= 0,
                                        pow10((18 - frac.len()) as nat) >= 1,
                                ;
                                assert(vu * (DECIMAL_SCALE as int) >= 0) by (nonlinear_arith)
                                    requires
                                        vu >= 0,
                                        DECIMAL_SCALE >= 1,
                                ;
                            }
                        }
                        return None;
                    },
                    Some(f) => f,
                };
                proof {
                    let vu = parse_digits(units).unwrap();
                    let vf = parse_digits(frac).unwrap();
                    if vu <= u128::MAX {
                        assert(u == vu);
                    }
                    assert(u == vu);
                    assert(f == vf);
                }
                if u > 170141183460469231731u128 {
                    proof {
                        let vu = parse_digits(units).unwrap();
                        let vf = parse_digits(frac).unwrap();
                        lemma_pow10_pos((18 - frac.len()) as nat);
                        assert(vu * (DECIMAL_SCALE as int) >= 170141183460469231732 * (
                        DECIMAL_SCALE as int)) by (nonlinear_arith)
                            requires
                                vu >= 170141183460469231732,
                                DECIMAL_SCALE as int > 0,
                        ;
                        assert(vf * pow10((18 - frac.len()) as nat) >= 0) by (nonlinear_arith)
                            requires
                                vf >= 0,
                                pow10((18 - frac.len()) as nat) >= 1,
                        ;
                    }
                    return None;
                }
                proof {
                    lemma_digits_val_bound(frac);
                    lemma_pow10_18();
                    lemma_pow10_adds(frac.len() as nat, (18 - frac.len()) as nat);
                    lemma_pow10_pos((18 - frac.len()) as nat);
                    assert(f * pow10((18 - frac.len()) as nat) <= (pow10(frac.len() as nat) - 1)
                        * pow10((18 - frac.len()) as nat)) by (nonlinear_arith)
                        requires
                            f <= pow10(frac.len() as nat) - 1,
                            pow10((18 - frac.len()) as nat) >= 1,
                    ;
                    assert((pow10(frac.len() as nat) - 1) * pow10((18 - frac.len()) as nat)
                        <= pow10(18) - 1) by (nonlinear_arith)
                        requires
                            pow10(frac.len() as nat) * pow10((18 - frac.len()) as nat) == pow10(
                                18,
                            ),
                            pow10((18 - frac.len()) as nat) >= 1,
                    ;
                    assert(f >= 0);
                    assert(f * pow10((18 - frac.len()) as nat) >= 0) by (nonlinear_arith)
                        requires
                            f >= 0,
                            pow10((18 - frac.len()) as nat) >= 1,
                    ;
                }
                let scale = pow10_u128(18 - flen);
                proof {
                    assert(frac.len() == flen);
                    assert(scale == pow10((18 - frac.len()) as nat));
                    assert((f as int) * (scale as int) <= 999999999999999999);
                }
                let fs = f * scale;
                proof {
                    assert(u <= 170141183460469231731u128);
                    assert((u as int) * (DECIMAL_SCALE as int)
                        <= 170141183460469231731000000000000000000) by (nonlinear_arith)
                        requires
                            u <= 170141183460469231731u128,
                    ;
                }
                let m = u * (DECIMAL_SCALE as u128) + fs;
                if neg {
                    if m > 170141183460469231731687303715884105728u128 {
                        return None;
                    }
                    Some(Decimal { attos: neg_mag(m) })
                } else {
                    if m > 170141183460469231731687303715884105727u128 {
                        return None;
                    }
                    Some(Decimal { attos: m as i128 })
                }
            },
        }
    }

    /// Canonical text of this amount.
    #[verifier::rlimit(80)]
    pub fn to_text(&self) -> (r: Vec<u8>)
        ensures
            r@ == decimal_text(self@),
    {
        let v = self.attos;
        let mut out: Vec<u8> = Vec::new();
        let m: u128 = if v < 0 {
            out.push(45);
            ((-(v + 1)) as u128) + 1
        } else {
            v as u128
        };
        proof {
            lemma_pow10_18();
        }
        let u = m / (DECIMAL_SCALE as u128);
        let f = m % (DECIMAL_SCALE as u128);
        push_dec_digits(u, &mut out);
        if f != 0 {
            out.push(46);
            let mut tmp: Vec<u8> = Vec::new();
            push_dec_digits(f, &mut tmp);
            proof {
                lemma_dec_digits_ok(f as int);
                lemma_dec_digits_len(f as int, 18);
            }
            let mut fr: Vec<u8> = Vec::new();
            let pad = 18 - tmp.len();
            let mut i: usize = 0;
            while i < pad
                invariant
                    i <= pad,
                    fr@ =~= zeros(i as int),
                decreases pad - i,
            {
                fr.push(48);
                proof {
                    assert(fr@ =~= zeros(i + 1));
                }
                i = i + 1;
            }
            let ghost padded = zeros(pad as int) + tmp@;
            let mut j: usize = 0;
            while j < tmp.len()
                invariant
                    j <= tmp@.len(),
                    fr@ == zeros(pad as int) + tmp@.take(j as int),
                decreases tmp@.len() - j,
            {
                fr.push(tmp[j]);
                proof {
                    assert(zeros(pad as int) + tmp@.take(j + 1) =~= (zeros(pad as int)
                        + tmp@.take(j as int)).push(tmp@[j as int]));
                }
                j = j + 1;
            }
            proof {
                assert(tmp@.take(tmp@.len() as int) =~= tmp@);
                assert(fr@ == padded);
            }
            while fr.len() > 0 && fr[fr.len() - 1] == 48
                invariant
                    strip_trailing_zeros(fr@) == strip_trailing_zeros(padded),
                decreases fr@.len(),
            {
                proof {
                    assert(fr@.last() == 48);
                    assert(strip_trailing_zeros(fr@) == strip_trailing_zeros(fr@.drop_last()));
                    assert(fr@.subrange(0, fr@.len() - 1) =~= fr@.drop_last());
                }
                fr.pop();
            }
            proof {
                assert(strip_trailing_zeros(fr@) == fr@);
            }
            let mut k: usize = 0;
            let ghost pre = out@;
            while k < fr.len()
                invariant
                    k <= fr@.len(),
                    out@ == pre + fr@.take(k as int),
                decreases fr@.len() - k,
            {
                out.push(fr[k]);
                proof {
                    assert(pre + fr@.take(k + 1) =~= (pre + fr@.take(k as int)).push(
                        fr@[k as int],
                    ));
                }
                k = k + 1;
            }
            proof {
                assert(fr@.take(fr@.len() as int) =~= fr@);
            }
        }
        proof {
            let vv = self@;
            let mm = if vv < 0 { -vv } else { vv };
            assert(m == mm);
            let uu = mm / (DECIMAL_SCALE as int);
            let ff = mm % (DECIMAL_SCALE as int);
            assert(u == uu && f == ff);
            if ff == 0 {
                if vv < 0 {
                    assert(out@ =~= seq![45u8] + dec_digits(uu));
                } else {
                    assert(out@ =~= Seq::<u8>::empty() + dec_digits(uu));
                }
            } else {
                let fd = strip_trailing_zeros(zeros(18 - dec_digits(ff).len()) + dec_digits(ff));
                if vv < 0 {
                    assert(out@ =~= seq![45u8] + dec_digits(uu) + seq![46u8] + fd);
                } else {
                    assert(out@ =~= Seq::<u8>::empty() + dec_digits(uu) + seq![46u8] + fd);
                }
            }
        }
        out
    }
}


/// Every byte of a canonical decimal text is a digit, the sign or the dot.
pub proof fn lemma_decimal_text_shape(v: int)
    ensures
        decimal_text(v).len() >= 1,
        comma_free(decimal_text(v)),
        decimal_text(v)[0] != 35,
        !is_space(decimal_text(v)[0]),
        !is_space(decimal_text(v).last()),
    decreases 0int,
{
    let txt = decimal_text(v);
    let m = if v < 0 { -v } else { v };
    let sc = DECIMAL_SCALE as int;
    let u = m / sc;
    let f = m % sc;
    lemma_pow10_18();
    vstd::arithmetic::div_mod::lemma_fundamental_div_mod(m, sc);
    assert(u >= 0);
    lemma_dec_digits_ok(u);
    let du = dec_digits(u);
    let sign: Seq<u8> = if v < 0 { seq![45u8] } else { Seq::empty() };
    if f == 0 {
        assert(txt == sign + du);
        assert forall|i: int| 0 <= i < txt.len() implies #[trigger] txt[i] != 44 && !is_space(
            txt[i],
        ) by {
            if v < 0 {
                if i > 0 {
                    assert(txt[i] == du[i - 1]);
                    assert(is_digit(txt[i]));
                }
            } else {
                assert(txt[i] == du[i]);
                assert(is_digit(txt[i]));
            }
        }
        if v < 0 {
            assert(txt[0] == 45);
            assert(txt.last() == du.last());
        } else {
            assert(txt[0] == du[0]);
            assert(txt.last() == du.last());
        }
    } else {
        lemma_dec_digits_ok(f);
        lemma_dec_digits_len(f, 18);
        let df = dec_digits(f);
        let padded = zeros(18 - df.len()) + df;
        lemma_zeros_digits(18 - df.len());
        assert(all_digits(padded)) by {
            assert forall|i: int| 0 <= i < padded.len() implies is_digit(#[trigger] padded[i]) by {
                if i < 18 - df.len() {
                    assert(padded[i] == zeros(18 - df.len())[i]);
                } else {
                    assert(padded[i] == df[i - (18 - df.len())]);
                }
            }
        }
        lemma_digits_val_concat(zeros(18 - df.len()), df);
        lemma_strip_trailing_zeros(padded);
        let fd = strip_trailing_zeros(padded);
        assert(digits_val(padded) == f);
        assert(fd.len() >= 1);
        assert(txt == sign + du + seq![46u8] + fd);
        assert forall|i: int| 0 <= i < txt.len() implies #[trigger] txt[i] != 44 && !is_space(
            txt[i],
        ) by {
            let sl = sign.len() as int;
            let ul = du.len() as int;
            if i < sl {
                assert(txt[i] == 45);
            } else if i < sl + ul {
                assert(txt[i] == du[i - sl]);
                assert(is_digit(txt[i]));
            } else if i == sl + ul {
                assert(txt[i] == 46);
            } else {
                assert(txt[i] == fd[i - sl - ul - 1]);
                assert(is_digit(txt[i]));
            }
        }
        if v < 0 {
            assert(txt[0] == 45);
        } else {
            assert(txt[0] == du[0]);
        }
        assert(txt.last() == fd.last());
        assert(is_digit(fd.last()));
    }
}

/// Parsing the canonical text of any amount gives the amount back.
pub proof fn lemma_decimal_roundtrip(v: int)
    requires
        i128::MIN <= v <= i128::MAX,
    ensures
        parse_decimal_text(decimal_text(v)) == Some(v),
{
    let txt = decimal_text(v);
    let m = if v < 0 { -v } else { v };
    let sc = DECIMAL_SCALE as int;
    let u = m / sc;
    let f = m % sc;
    lemma_pow10_18();
    vstd::arithmetic::div_mod::lemma_fundamental_div_mod(m, sc);
    assert(u >= 0);
    lemma_dec_digits_ok(u);
    let du = dec_digits(u);
    let sign: Seq<u8> = if v < 0 { seq![45u8] } else { Seq::empty() };
    if f == 0 {
        assert(txt == sign + du);
        let t = if v < 0 { txt.drop_first() } else { txt };
        if v < 0 {
            assert(txt[0] == 45);
            assert(t =~= du);
        } else {
            assert(txt[0] == du[0]);
            assert(is_digit(txt[0]));
            assert(t =~= du);
        }
        assert forall|k: int| 0 <= k < t.len() implies #[trigger] t[k] != 46 by {
            assert(is_digit(du[k]));
        }
        lemma_find_byte_none(t, 46);
        assert(parse_digits(t) == Some(u));
        if v < 0 {
            assert(decimal_attos(txt) == Some(-u * sc));
            assert(-u * sc == -(u * sc));
            assert(v == -(u * sc));
        } else {
            assert(decimal_attos(txt) == Some(u * sc));
        }
    } else {
        lemma_dec_digits_ok(f);
        lemma_dec_digits_len(f, 18);
        let df = dec_digits(f);
        let padded = zeros(18 - df.len()) + df;
        lemma_zeros_digits(18 - df.len());
        assert(all_digits(padded)) by {
            assert forall|i: int| 0 <= i < padded.len() implies is_digit(#[trigger] padded[i]) by {
                if i < 18 - df.len() {
                    assert(padded[i] == zeros(18 - df.len())[i]);
                } else {
                    assert(padded[i] == df[i - (18 - df.len())]);
                }
            }
        }
        lemma_digits_val_concat(zeros(18 - df.len()), df);
        assert(digits_val(padded) == f);
        lemma_strip_trailing_zeros(padded);
        let fd = strip_trailing_zeros(padded);
        assert(padded.len() == 18);
        assert(fd.len() >= 1);
        assert(digits_val(fd) * pow10((18 - fd.len()) as nat) == f);
        assert(txt == sign + du + seq![46u8] + fd);
        let t = if v < 0 { txt.drop_first() } else { txt };
        let body = du + seq![46u8] + fd;
        if v < 0 {
            assert(txt[0] == 45);
            assert(t =~= body);
        } else {
            assert(txt[0] == du[0]);
            assert(is_digit(txt[0]));
            assert(t =~= body);
        }
        let d = du.len() as int;
        assert(body[d] == 46);
        assert forall|k: int| 0 <= k < d implies #[trigger] body[k] != 46 by {
            assert(body[k] == du[k]);
            assert(is_digit(du[k]));
        }
        lemma_find_byte_at(body, 46, d);
        assert(body.take(d) =~= du);
        assert(body.skip(d + 1) =~= fd);
        assert(parse_digits(du) == Some(u));
        assert(parse_digits(fd) == Some(digits_val(fd)));
        let mm = u * sc + digits_val(fd) * pow10((18 - fd.len()) as nat);
        assert(mm == m);
        if v < 0 {
            assert(decimal_attos(txt) == Some(-mm));
            assert(v == -mm);
        } else {
            assert(decimal_attos(txt) == Some(mm));
        }
    }
}
} // verus!
