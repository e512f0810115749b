//! Byte-level textual grammars shared by the parsing and formatting code:
//! decimal digit runs, signed and unsigned integers, hexadecimal strings,
//! whitespace trimming and comma-separated token lists.
//!
//! All grammars are ASCII; input is handled as UTF-8 bytes.  The bytes that
//! the grammars inspect (digits, signs, `,`, `#`, `.`) never occur inside a
//! multi-byte UTF-8 sequence, so byte-level splitting agrees with
//! character-level splitting.

use vstd::prelude::*;

verus! {

/// UTF-8 bytes of a character sequence; the ground form on which every
/// textual grammar of this crate is defined.
pub open spec fn chars_bytes(s: Seq<char>) -> Seq<u8> {
    vstd::utf8::encode_utf8(s)
}

// ---------------------------------------------------------------------------
// Decimal digit runs
// ---------------------------------------------------------------------------

pub open spec fn is_digit(b: u8) -> bool {
    48 <= b && b <= 57
}

pub open spec fn digit_val(b: u8) -> int {
    b - 48
}

pub open spec fn all_digits(s: Seq<u8>) -> bool {
    forall|i: int| 0 <= i < s.len() ==> is_digit(#[trigger] s[i])
}

/// Value of a run of decimal digits, most significant first.
pub open spec fn digits_val(s: Seq<u8>) -> int
    decreases s.len(),
{
    if s.len() == 0 {
        0
    } else {
        digits_val(s.drop_last()) * 10 + digit_val(s.last())
    }
}

pub open spec fn pow10(n: nat) -> int
    decreases n,
{
    if n == 0 {
        1
    } else {
        10 * pow10((n - 1) as nat)
    }
}

pub proof fn lemma_pow10_pos(n: nat)
    ensures
        pow10(n) >= 1,
    decreases n,
{
    if n > 0 {
        lemma_pow10_pos((n - 1) as nat);
    }
}

pub proof fn lemma_digits_val_nonneg(s: Seq<u8>)
    requires
        all_digits(s),
    ensures
        digits_val(s) >= 0,
    decreases s.len(),
{
    if s.len() > 0 {
        assert(all_digits(s.drop_last()));
        lemma_digits_val_nonneg(s.drop_last());
    }
}

/// Concatenating digit runs: the left run is shifted by one decimal place
/// per digit of the right run.
pub proof fn lemma_digits_val_concat(a: Seq<u8>, b: Seq<u8>)
    ensures
        digits_val(a + b) == digits_val(a) * pow10(b.len()) + digits_val(b),
    decreases b.len(),
{
    if b.len() == 0 {
        assert(a + b =~= a);
    } else {
        let b1 = b.drop_last();
        assert((a + b).drop_last() =~= a + b1);
        lemma_digits_val_concat(a, b1);
        assert((a + b).last() == b.last());
        assert(pow10(b.len()) == 10 * pow10(b1.len()));
        assert(digits_val(a) * (10 * pow10(b1.len())) == (digits_val(a) * pow10(b1.len())) * 10)
            by (nonlinear_arith);
    }
}

/// A digit-run prefix never exceeds the whole run in value.
pub proof fn lemma_digits_val_take_le(s: Seq<u8>, i: int)
    requires
        all_digits(s),
        0 <= i <= s.len(),
    ensures
        digits_val(s.take(i)) <= digits_val(s),
{
    let a = s.take(i);
    let b = s.skip(i);
    assert(s =~= a + b);
    lemma_digits_val_concat(a, b);
    assert(all_digits(a));
    assert(all_digits(b));
    lemma_digits_val_nonneg(a);
    lemma_digits_val_nonneg(b);
    lemma_pow10_pos(b.len());
    assert(digits_val(a) * pow10(b.len()) >= digits_val(a) * 1) by (nonlinear_arith)
        requires
            digits_val(a) >= 0,
            pow10(b.len()) >= 1,
    ;
}

// ---------------------------------------------------------------------------
// Integer grammars (the canonical textual form of the primitive kinds)
// ---------------------------------------------------------------------------

/// A non-empty all-digit run, as an unbounded integer.
pub open spec fn parse_digits(s: Seq<u8>) -> Option<int> {
    if s.len() > 0 && all_digits(s) {
        Some(digits_val(s))
    } else {
        None
    }
}

/// Unsigned grammar: an optional `+`, then a non-empty digit run.
pub open spec fn parse_unsigned_text(s: Seq<u8>) -> Option<int> {
    if s.len() > 0 && s[0] == 43 {
        parse_digits(s.drop_first())
    } else {
        parse_digits(s)
    }
}

/// Signed grammar: an optional `+` or `-`, then a non-empty digit run.
pub open spec fn parse_signed_text(s: Seq<u8>) -> Option<int> {
    if s.len() > 0 && s[0] == 45 {
        match parse_digits(s.drop_first()) {
            Some(v) => Some(-v),
            None => None,
        }
    } else {
        parse_unsigned_text(s)
    }
}

pub open spec fn parse_u128_text(s: Seq<u8>) -> Option<u128> {
    match parse_unsigned_text(s) {
        Some(v) => if v <= u128::MAX {
            Some(v as u128)
        } else {
            None
        },
        None => None,
    }
}

pub open spec fn parse_u64_text(s: Seq<u8>) -> Option<u64> {
    match parse_unsigned_text(s) {
        Some(v) => if v <= u64::MAX {
            Some(v as u64)
        } else {
            None
        },
        None => None,
    }
}

pub open spec fn parse_u32_text(s: Seq<u8>) -> Option<u32> {
    match parse_unsigned_text(s) {
        Some(v) => if v <= u32::MAX {
            Some(v as u32)
        } else {
            None
        },
        None => None,
    }
}

pub open spec fn parse_u16_text(s: Seq<u8>) -> Option<u16> {
    match parse_unsigned_text(s) {
        Some(v) => if v <= u16::MAX {
            Some(v as u16)
        } else {
            None
        },
        None => None,
    }
}

pub open spec fn parse_u8_text(s: Seq<u8>) -> Option<u8> {
    match parse_unsigned_text(s) {
        Some(v) => if v <= u8::MAX {
            Some(v as u8)
        } else {
            None
        },
        None => None,
    }
}

pub open spec fn parse_i128_text(s: Seq<u8>) -> Option<i128> {
    match parse_signed_text(s) {
        Some(v) => if i128::MIN <= v && v <= i128::MAX {
            Some(v as i128)
        } else {
            None
        },
        None => None,
    }
}

pub open spec fn parse_i64_text(s: Seq<u8>) -> Option<i64> {
    match parse_signed_text(s) {
        Some(v) => if i64::MIN <= v && v <= i64::MAX {
            Some(v as i64)
        } else {
            None
        },
        None => None,
    }
}

pub open spec fn parse_i32_text(s: Seq<u8>) -> Option<i32> {
    match parse_signed_text(s) {
        Some(v) => if i32::MIN <= v && v <= i32::MAX {
            Some(v as i32)
        } else {
            None
        },
        None => None,
    }
}

pub open spec fn parse_i16_text(s: Seq<u8>) -> Option<i16> {
    match parse_signed_text(s) {
        Some(v) => if i16::MIN <= v && v <= i16::MAX {
            Some(v as i16)
        } else {
            None
        },
        None => None,
    }
}

pub open spec fn parse_i8_text(s: Seq<u8>) -> Option<i8> {
    match parse_signed_text(s) {
        Some(v) => if i8::MIN <= v && v <= i8::MAX {
            Some(v as i8)
        } else {
            None
        },
        None => None,
    }
}

/// Boolean grammar: exactly `true` or `false`.
pub open spec fn parse_bool_text(s: Seq<u8>) -> Option<bool> {
    if s =~= seq![116u8, 114u8, 117u8, 101u8] {
        Some(true)
    } else if s =~= seq![102u8, 97u8, 108u8, 115u8, 101u8] {
        Some(false)
    } else {
        None
    }
}

// ---------------------------------------------------------------------------
// Executable integer parsing
// ---------------------------------------------------------------------------

/// Parses `s[from..to]` as a non-empty digit run bounded by `u128::MAX`.
pub fn parse_digit_run(s: &[u8], from: usize, to: usize) -> (r: Option<u128>)
    requires
        from <= to <= s@.len(),
    ensures
        ({
            let t = s@.subrange(from as int, to as int);
            match parse_digits(t) {
                Some(v) => r == if v <= u128::MAX {
                    Some(v as u128)
                } else {
                    None::<u128>
                },
                None => r is None,
            }
        }),
{
    let ghost t = s@.subrange(from as int, to as int);
    if from == to {
        return None;
    }
    let mut i: usize = from;
    let mut acc: u128 = 0;
    while i < to
        invariant
            from <= i <= to <= s@.len(),
            t == s@.subrange(from as int, to as int),
            t.len() == to - from,
            all_digits(t.take(i - from)),
            acc == digits_val(t.take(i - from)),
        decreases to - i,
    {
        let b = s[i];
        assert(t[i - from] == s@[i as int]);
        if !(48 <= b && b <= 57) {
            assert(!all_digits(t)) by {
                assert(t[i - from] == b);
            }
            return None;
        }
        let d = (b - 48) as u128;
        proof {
            assert(t.take(i - from + 1).drop_last() =~= t.take(i - from));
            assert(t.take(i - from + 1).last() == t[i - from]);
            assert(all_digits(t.take(i - from + 1)));
            assert(digits_val(t.take(i - from + 1)) == acc * 10 + d);
        }
        if acc > (u128::MAX - d) / 10 {
            proof {
                let m = (u128::MAX - d) as int;
                vstd::arithmetic::div_mod::lemma_fundamental_div_mod(m, 10);
                assert(acc * 10 > m) by (nonlinear_arith)
                    requires
                        acc > m / 10,
                        m == 10 * (m / 10) + m % 10,
                        0 <= m % 10 < 10,
                ;
                assert(digits_val(t.take(i - from + 1)) > u128::MAX);
                if all_digits(t) {
                    lemma_digits_val_take_le(t, i - from + 1);
                    assert(digits_val(t) > u128::MAX);
                }
            }
            return None;
        }
        proof {
            let m = (u128::MAX - d) as int;
            vstd::arithmetic::div_mod::lemma_fundamental_div_mod(m, 10);
            assert(acc * 10 <= m) by (nonlinear_arith)
                requires
                    acc <= m / 10,
                    m == 10 * (m / 10) + m % 10,
                    0 <= m % 10 < 10,
            ;
        }
        acc = acc * 10 + d;
        i = i + 1;
    }
    proof {
        assert(t.take(t.len() as int) =~= t);
    }
    Some(acc)
}

/// Parses the unsigned decimal grammar (optional `+`, then digits).
pub fn parse_u128(s: &[u8]) -> (r: Option<u128>)
    ensures
        r == parse_u128_text(s@),
{
    if s.len() > 0 && s[0] == 43 {
        proof {
            assert(s@.subrange(1, s@.len() as int) =~= s@.drop_first());
        }
        parse_digit_run(s, 1, s.len())
    } else {
        proof {
            assert(s@.subrange(0, s@.len() as int) =~= s@);
        }
        parse_digit_run(s, 0, s.len())
    }
}

/// Parses the signed decimal grammar (optional `+` or `-`, then digits).
pub fn parse_i128(s: &[u8]) -> (r: Option<i128>)
    ensures
        r == parse_i128_text(s@),
{
    if s.len() > 0 && s[0] == 45 {
        proof {
            assert(s@.subrange(1, s@.len() as int) =~= s@.drop_first());
            if parse_digits(s@.drop_first()) is Some {
                lemma_digits_val_nonneg(s@.drop_first());
            }
        }
        let mag = parse_digit_run(s, 1, s.len());
        match mag {
            None => {
                proof {
                    if parse_digits(s@.drop_first()) is Some {
                        let v = parse_digits(s@.drop_first()).unwrap();
                        assert(v > u128::MAX);
                        assert(-v < i128::MIN);
                    }
                }
                None
            },
            Some(m) => {
                if m > 170141183460469231731687303715884105728u128 {
                    proof {
                        let v = parse_digits(s@.drop_first()).unwrap();
                        if v <= u128::MAX {
                            assert(m == v);
                        }
                        assert(-v < i128::MIN);
                    }
                    None
                } else if m == 0 {
                    Some(0i128)
                } else {
                    let m1 = (m - 1) as i128;
                    Some(-m1 - 1)
                }
            },
        }
    } else {
        proof {
            if s@.len() > 0 && s@[0] == 43 {
                if parse_digits(s@.drop_first()) is Some {
                    lemma_digits_val_nonneg(s@.drop_first());
                }
            } else {
                if parse_digits(s@) is Some {
                    lemma_digits_val_nonneg(s@);
                }
            }
        }
        let mag = parse_u128(s);
        match mag {
            None => {
                proof {
                    if parse_unsigned_text(s@) is Some {
                        assert(parse_unsigned_text(s@).unwrap() > u128::MAX);
                    }
                }
                None
            },
            Some(m) => {
                if m > i128::MAX as u128 {
                    None
                } else {
                    Some(m as i128)
                }
            },
        }
    }
}

// ---------------------------------------------------------------------------
// Decimal digit formatting
// ---------------------------------------------------------------------------

/// Canonical digit run of a non-negative integer: no sign, no leading zero
/// (except for the single digit of zero itself).
pub open spec fn dec_digits(n: int) -> Seq<u8>
    decreases n,
    when n >= 0
{
    if n < 10 {
        seq![(48 + n) as u8]
    } else {
        dec_digits(n / 10).push((48 + n % 10) as u8)
    }
}

pub proof fn lemma_dec_digits_ok(n: int)
    requires
        n >= 0,
    ensures
        all_digits(dec_digits(n)),
        digits_val(dec_digits(n)) == n,
        dec_digits(n).len() >= 1,
    decreases n,
{
    if n < 10 {
        let s = dec_digits(n);
        assert(s == seq![(48 + n) as u8]);
        assert(s.len() == 1);
        assert(s.drop_last() =~= Seq::<u8>::empty());
        assert(digits_val(s) == digits_val(s.drop_last()) * 10 + digit_val(s.last()));
        assert(digit_val(s.last()) == n);
    } else {
        lemma_dec_digits_ok(n / 10);
        let s = dec_digits(n);
        assert(s == dec_digits(n / 10).push((48 + n % 10) as u8));
        assert(s.drop_last() =~= dec_digits(n / 10));
        assert(s.last() == (48 + n % 10) as u8);
        vstd::arithmetic::div_mod::lemma_fundamental_div_mod(n, 10);
        assert(digits_val(s) == (n / 10) * 10 + (n % 10));
    }
}

/// Formatting then parsing an unsigned value gives the value back.
pub proof fn lemma_dec_digits_roundtrip(n: int)
    requires
        0 <= n <= u128::MAX,
    ensures
        parse_u128_text(dec_digits(n)) == Some(n as u128),
        parse_unsigned_text(dec_digits(n)) == Some(n),
{
    lemma_dec_digits_ok(n);
    let s = dec_digits(n);
    assert(is_digit(s[0]));
    assert(s[0] != 43);
}

/// Appends the canonical digit run of `n`.
pub fn push_dec_digits(n: u128, out: &mut Vec<u8>)
    ensures
        final(out)@ == old(out)@ + dec_digits(n as int),
    decreases n,
{
    if n < 10 {
        out.push((48 + n) as u8);
        proof {
            assert(old(out)@ + dec_digits(n as int) =~= old(out)@.push((48 + n) as u8));
        }
    } else {
        push_dec_digits(n / 10, out);
        out.push((48 + (n % 10)) as u8);
        proof {
            assert(old(out)@ + dec_digits(n as int) =~= (old(out)@ + dec_digits(
                n as int / 10,
            )).push((48 + n as int % 10) as u8));
        }
    }
}

// ---------------------------------------------------------------------------
// Hexadecimal strings
// ---------------------------------------------------------------------------

pub open spec fn is_hex_digit(b: u8) -> bool {
    is_digit(b) || (97 <= b && b <= 102) || (65 <= b && b <= 70)
}

pub open spec fn hex_digit_val(b: u8) -> int {
    if is_digit(b) {
        b - 48
    } else if 97 <= b && b <= 102 {
        b - 87
    } else {
        b - 55
    }
}

pub open spec fn all_hex(s: Seq<u8>) -> bool {
    forall|i: int| 0 <= i < s.len() ==> is_hex_digit(#[trigger] s[i])
}

/// Bytes denoted by an even-length hex string, two digits per byte.
pub open spec fn hex_pairs_bytes(s: Seq<u8>) -> Seq<u8>
    decreases s.len(),
{
    if s.len() < 2 {
        Seq::empty()
    } else {
        hex_pairs_bytes(s.drop_last().drop_last()).push(
            (hex_digit_val(s[s.len() - 2]) * 16 + hex_digit_val(s.last())) as u8,
        )
    }
}

/// Lower-case hex digit of a value below 16.
pub open spec fn hex_digit_of(v: int) -> u8 {
    if v < 10 {
        (48 + v) as u8
    } else {
        (87 + v) as u8
    }
}

/// Lower-case hex string of a byte sequence.
pub open spec fn hex_of_bytes(b: Seq<u8>) -> Seq<u8>
    decreases b.len(),
{
    if b.len() == 0 {
        Seq::empty()
    } else {
        hex_of_bytes(b.drop_last()) + seq![
            hex_digit_of(b.last() as int / 16),
            hex_digit_of(b.last() as int % 16),
        ]
    }
}

pub proof fn lemma_hex_roundtrip(b: Seq<u8>)
    ensures
        all_hex(hex_of_bytes(b)),
        hex_of_bytes(b).len() == 2 * b.len(),
        hex_pairs_bytes(hex_of_bytes(b)) == b,
    decreases b.len(),
{
    if b.len() == 0 {
        assert(hex_pairs_bytes(hex_of_bytes(b)) =~= b);
    } else {
        lemma_hex_roundtrip(b.drop_last());
        let s = hex_of_bytes(b);
        let v = b.last() as int;
        assert(s.drop_last().drop_last() =~= hex_of_bytes(b.drop_last()));
        assert(s[s.len() - 2] == hex_digit_of(v / 16));
        assert(s.last() == hex_digit_of(v % 16));
        assert(hex_digit_val(hex_digit_of(v / 16)) == v / 16);
        assert(hex_digit_val(hex_digit_of(v % 16)) == v % 16);
        vstd::arithmetic::div_mod::lemma_fundamental_div_mod(v, 16);
        assert(hex_pairs_bytes(s) =~= b);
        assert forall|i: int| 0 <= i < s.len() implies is_hex_digit(#[trigger] s[i]) by {
            if i < s.len() - 2 {
                assert(s[i] == hex_of_bytes(b.drop_last())[i]);
            }
        }
    }
}

/// Lower-case hex encoding, two digits per byte.
pub fn hex_encode(b: &[u8]) -> (r: Vec<u8>)
    ensures
        r@ == hex_of_bytes(b@),
{
    let mut out: Vec<u8> = Vec::new();
    let mut i: usize = 0;
    while i < b.len()
        invariant
            i <= b@.len(),
            out@ == hex_of_bytes(b@.take(i as int)),
        decreases b@.len() - i,
    {
        let v = b[i];
        let hi = v / 16;
        let lo = v % 16;
        let hb = if hi < 10 {
            (48 + hi) as u8
        } else {
            (87 + hi) as u8
        };
        let lb = if lo < 10 {
            (48 + lo) as u8
        } else {
            (87 + lo) as u8
        };
        out.push(hb);
        out.push(lb);
        proof {
            let t = b@.take(i + 1);
            assert(t.drop_last() =~= b@.take(i as int));
            assert(t.last() == b@[i as int]);
            assert(out@ =~= hex_of_bytes(t));
        }
        i = i + 1;
    }
    proof {
        assert(b@.take(b@.len() as int) =~= b@);
    }
    out
}

/// Decodes an even-length hex string; `None` on odd length or a stray byte.
pub fn hex_decode(s: &[u8]) -> (r: Option<Vec<u8>>)
    ensures
        (s@.len() % 2 == 0 && all_hex(s@)) ==> (r is Some && r.unwrap()@ == hex_pairs_bytes(s@)),
        !(s@.len() % 2 == 0 && all_hex(s@)) ==> r is None,
{
    if s.len() % 2 != 0 {
        return None;
    }
    let mut out: Vec<u8> = Vec::new();
    let mut i: usize = 0;
    while i < s.len()
        invariant
            i <= s@.len(),
            i % 2 == 0,
            s@.len() % 2 == 0,
            all_hex(s@.take(i as int)),
            out@ == hex_pairs_bytes(s@.take(i as int)),
        decreases s@.len() - i,
    {
        let h = s[i];
        let l = s[i + 1];
        let hv = if 48 <= h && h <= 57 {
            (h - 48) as u8
        } else if 97 <= h && h <= 102 {
            (h - 87) as u8
        } else if 65 <= h && h <= 70 {
            (h - 55) as u8
        } else {
            assert(!is_hex_digit(s@[i as int]));
            return None;
        };
        let lv = if 48 <= l && l <= 57 {
            (l - 48) as u8
        } else if 97 <= l && l <= 102 {
            (l - 87) as u8
        } else if 65 <= l && l <= 70 {
            (l - 55) as u8
        } else {
            assert(!is_hex_digit(s@[i + 1]));
            return None;
        };
        out.push(hv * 16 + lv);
        proof {
            let t = s@.take(i + 2);
            assert(t.drop_last().drop_last() =~= s@.take(i as int));
            assert(t[t.len() - 2] == s@[i as int]);
            assert(t.last() == s@[i + 1]);
            assert(is_hex_digit(s@[i as int]));
            assert(is_hex_digit(s@[i + 1]));
            assert forall|j: int| 0 <= j < t.len() implies is_hex_digit(#[trigger] t[j]) by {
                if j < i as int {
                    assert(t[j] == s@.take(i as int)[j]);
                } else {
                    assert(t[j] == s@[j]);
                }
            }
            assert(out@ =~= hex_pairs_bytes(t));
        }
        i = i + 2;
    }
    proof {
        assert(s@.take(s@.len() as int) =~= s@);
    }
    Some(out)
}

// ---------------------------------------------------------------------------
// Whitespace trimming
// ---------------------------------------------------------------------------

pub open spec fn is_space(b: u8) -> bool {
    b == 32 || b == 9 || b == 10 || b == 13
}

pub open spec fn trim_front(s: Seq<u8>) -> Seq<u8>
    decreases s.len(),
{
    if s.len() > 0 && is_space(s[0]) {
        trim_front(s.drop_first())
    } else {
        s
    }
}

pub open spec fn trim_back(s: Seq<u8>) -> Seq<u8>
    decreases s.len(),
{
    if s.len() > 0 && is_space(s.last()) {
        trim_back(s.drop_last())
    } else {
        s
    }
}

/// ASCII whitespace stripped from both ends.
pub open spec fn trim_text(s: Seq<u8>) -> Seq<u8> {
    trim_back(trim_front(s))
}

/// Trimming leaves a string with no whitespace at either end unchanged.
pub proof fn lemma_trim_clean(s: Seq<u8>)
    requires
        s.len() > 0 ==> !is_space(s[0]),
        s.len() > 0 ==> !is_space(s.last()),
    ensures
        trim_text(s) == s,
{
}

pub fn trim(s: &[u8]) -> (r: Vec<u8>)
    ensures
        r@ == trim_text(s@),
{
    proof {
        assert(s@.skip(0) =~= s@);
    }
    let mut a: usize = 0;
    while a < s.len() && (s[a] == 32 || s[a] == 9 || s[a] == 10 || s[a] == 13)
        invariant
            a <= s@.len(),
            trim_front(s@) == trim_front(s@.skip(a as int)),
        decreases s@.len() - a,
    {
        proof {
            assert(s@.skip(a as int)[0] == s@[a as int]);
            assert(s@.skip(a as int).drop_first() =~= s@.skip(a + 1));
        }
        a = a + 1;
    }
    proof {
        if a < s@.len() {
            assert(s@.skip(a as int)[0] == s@[a as int]);
        }
        assert(trim_front(s@.skip(a as int)) == s@.skip(a as int));
        assert(s@.skip(a as int) =~= s@.subrange(a as int, s@.len() as int));
    }
    let mut b: usize = s.len();
    while b > a && (s[b - 1] == 32 || s[b - 1] == 9 || s[b - 1] == 10 || s[b - 1] == 13)
        invariant
            a <= b <= s@.len(),
            trim_front(s@) == s@.skip(a as int),
            trim_back(s@.skip(a as int)) == trim_back(s@.subrange(a as int, b as int)),
        decreases b,
    {
        proof {
            let t = s@.subrange(a as int, b as int);
            assert(t.last() == s@[b - 1]);
            assert(t.drop_last() =~= s@.subrange(a as int, b - 1));
        }
        b = b - 1;
    }
    proof {
        let t = s@.subrange(a as int, b as int);
        if t.len() > 0 {
            assert(t.last() == s@[b - 1]);
        }
        assert(trim_back(t) == t);
    }
    let mut out: Vec<u8> = Vec::new();
    let mut i: usize = a;
    while i < b
        invariant
            a <= i <= b <= s@.len(),
            out@ == s@.subrange(a as int, i as int),
        decreases b - i,
    {
        out.push(s[i]);
        proof {
            assert(s@.subrange(a as int, i + 1) =~= s@.subrange(a as int, i as int).push(
                s@[i as int],
            ));
        }
        i = i + 1;
    }
    out
}

// ---------------------------------------------------------------------------
// Comma-separated token lists
// ---------------------------------------------------------------------------

/// Tokens of `s` split on `,`; always at least one token, and empty input
/// gives one empty token.
pub open spec fn split_commas(s: Seq<u8>) -> Seq<Seq<u8>>
    decreases s.len(),
{
    if s.len() == 0 {
        seq![Seq::<u8>::empty()]
    } else if s.last() == 44 {
        split_commas(s.drop_last()).push(Seq::empty())
    } else {
        let r = split_commas(s.drop_last());
        r.update(r.len() - 1, r.last().push(s.last()))
    }
}

pub proof fn lemma_split_commas_len(s: Seq<u8>)
    ensures
        split_commas(s).len() >= 1,
    decreases s.len(),
{
    if s.len() > 0 {
        lemma_split_commas_len(s.drop_last());
    }
}

pub open spec fn comma_free(t: Seq<u8>) -> bool {
    forall|i: int| 0 <= i < t.len() ==> #[trigger] t[i] != 44
}

/// A comma-free string is one whole token.
pub proof fn lemma_split_single(t: Seq<u8>)
    requires
        comma_free(t),
    ensures
        split_commas(t) == seq![t],
    decreases t.len(),
{
    if t.len() == 0 {
        assert(split_commas(t) =~~= seq![t]);
    } else {
        assert(comma_free(t.drop_last()));
        lemma_split_single(t.drop_last());
        assert(t.last() != 44);
        assert(t.drop_last().push(t.last()) =~= t);
        assert(split_commas(t) =~~= seq![t]);
    }
}

/// Appending `,t` with a comma-free `t` appends one token.
pub proof fn lemma_split_push(s: Seq<u8>, t: Seq<u8>)
    requires
        comma_free(t),
    ensures
        split_commas(s + seq![44u8] + t) == split_commas(s).push(t),
    decreases t.len(),
{
    lemma_split_commas_len(s);
    if t.len() == 0 {
        let u = s + seq![44u8] + t;
        assert(u =~= s + seq![44u8]);
        assert(u.last() == 44);
        assert(u.drop_last() =~= s);
        assert(split_commas(u) =~~= split_commas(s).push(t));
    } else {
        let u = s + seq![44u8] + t;
        assert(comma_free(t.drop_last()));
        lemma_split_push(s, t.drop_last());
        assert(u.last() == t.last());
        assert(t.last() != 44);
        assert(u.drop_last() =~= s + seq![44u8] + t.drop_last());
        let r = split_commas(s).push(t.drop_last());
        assert(split_commas(u) == r.update(r.len() - 1, r.last().push(t.last())));
        assert(r.last().push(t.last()) =~= t);
        assert(r.update(r.len() - 1, t) =~~= split_commas(s).push(t));
    }
}

/// Tokens joined with `,` between each pair.
pub open spec fn join_commas(toks: Seq<Seq<u8>>) -> Seq<u8>
    decreases toks.len(),
{
    if toks.len() == 0 {
        Seq::empty()
    } else if toks.len() == 1 {
        toks[0]
    } else {
        join_commas(toks.drop_last()) + seq![44u8] + toks.last()
    }
}

/// Splitting a join of comma-free tokens gives the tokens back.
pub proof fn lemma_split_join(toks: Seq<Seq<u8>>)
    requires
        toks.len() >= 1,
        forall|i: int| 0 <= i < toks.len() ==> comma_free(#[trigger] toks[i]),
    ensures
        split_commas(join_commas(toks)) == toks,
    decreases toks.len(),
{
    if toks.len() == 1 {
        lemma_split_single(toks[0]);
        assert(split_commas(join_commas(toks)) =~~= toks);
    } else {
        lemma_split_join(toks.drop_last());
        lemma_split_push(join_commas(toks.drop_last()), toks.last());
        assert(split_commas(join_commas(toks.drop_last())).push(toks.last()) =~~= toks);
    }
}

/// Splits on `,`, materializing each token.
pub fn split_on_commas(s: &[u8]) -> (r: Vec<Vec<u8>>)
    ensures
        r.deep_view() == split_commas(s@),
{
    let mut done: Vec<Vec<u8>> = Vec::new();
    let mut cur: Vec<u8> = Vec::new();
    let mut i: usize = 0;
    while i < s.len()
        invariant
            i <= s@.len(),
            split_commas(s@.take(i as int)) == done.deep_view().push(cur@),
        decreases s@.len() - i,
    {
        let b = s[i];
        proof {
            let t = s@.take(i + 1);
            assert(t.drop_last() =~= s@.take(i as int));
            assert(t.last() == s@[i as int]);
        }
        let ghost dv = done.deep_view();
        let ghost cv = cur@;
        if b == 44 {
            done.push(cur);
            cur = Vec::new();
            proof {
                assert(done.deep_view() =~~= dv.push(cv));
                assert(split_commas(s@.take(i + 1)) == dv.push(cv).push(cur@));
            }
        } else {
            cur.push(b);
            proof {
                let r = dv.push(cv);
                assert(split_commas(s@.take(i + 1)) == r.update(r.len() - 1, r.last().push(b)));
                assert(r.update(r.len() - 1, cv.push(b)) =~~= dv.push(cv.push(b)));
            }
        }
        i = i + 1;
    }
    let ghost dv = done.deep_view();
    let ghost cv = cur@;
    done.push(cur);
    proof {
        assert(s@.take(s@.len() as int) =~= s@);
        assert(done.deep_view() =~~= dv.push(cv));
    }
    done
}


// ---------------------------------------------------------------------------
// Further digit-run facts, and locating a byte
// ---------------------------------------------------------------------------

/// A digit run of `k` digits is below `10^k`.
pub proof fn lemma_digits_val_bound(s: Seq<u8>)
    requires
        all_digits(s),
    ensures
        digits_val(s) < pow10(s.len()),
    decreases s.len(),
{
    if s.len() == 0 {
    } else {
        let s1 = s.drop_last();
        assert(all_digits(s1));
        lemma_digits_val_bound(s1);
        assert(digit_val(s.last()) <= 9);
        assert(digits_val(s1) * 10 <= (pow10(s1.len()) - 1) * 10) by (nonlinear_arith)
            requires
                digits_val(s1) <= pow10(s1.len()) - 1,
        ;
        assert(pow10(s.len()) == 10 * pow10(s1.len()));
    }
}

pub proof fn lemma_hex_pairs_len(s: Seq<u8>)
    requires
        s.len() % 2 == 0,
    ensures
        hex_pairs_bytes(s).len() == s.len() / 2,
    decreases s.len(),
{
    if s.len() >= 2 {
        lemma_hex_pairs_len(s.drop_last().drop_last());
    }
}

/// Index of the first occurrence of `b` in `s`, or `-1`.
pub open spec fn find_byte(s: Seq<u8>, b: u8) -> int
    decreases s.len(),
{
    if s.len() == 0 {
        -1
    } else if s[0] == b {
        0
    } else {
        let r = find_byte(s.drop_first(), b);
        if r == -1 {
            -1
        } else {
            r + 1
        }
    }
}

pub proof fn lemma_find_byte_at(s: Seq<u8>, b: u8, j: int)
    requires
        0 <= j < s.len(),
        s[j] == b,
        forall|k: int| 0 <= k < j ==> s[k] != b,
    ensures
        find_byte(s, b) == j,
    decreases j,
{
    if j > 0 {
        assert(s[0] != b);
        let s1 = s.drop_first();
        assert(s1[j - 1] == b);
        assert(forall|k: int| 0 <= k < j - 1 ==> s1[k] == s[k + 1] && s1[k] != b);
        lemma_find_byte_at(s1, b, j - 1);
    }
}

pub proof fn lemma_find_byte_none(s: Seq<u8>, b: u8)
    requires
        forall|k: int| 0 <= k < s.len() ==> s[k] != b,
    ensures
        find_byte(s, b) == -1,
    decreases s.len(),
{
    if s.len() > 0 {
        let s1 = s.drop_first();
        assert(forall|k: int| 0 <= k < s1.len() ==> s1[k] == s[k + 1] && s1[k] != b);
        lemma_find_byte_none(s1, b);
    }
}

// ---------------------------------------------------------------------------
// Powers of ten, zero runs, and trailing-zero stripping
// ---------------------------------------------------------------------------

pub proof fn lemma_pow10_adds(a: nat, b: nat)
    ensures
        pow10(a) * pow10(b) == pow10(a + b),
    decreases a,
{
    if a == 0 {
        assert(pow10(0) * pow10(b) == pow10(b));
    } else {
        lemma_pow10_adds((a - 1) as nat, b);
        assert((10 * pow10((a - 1) as nat)) * pow10(b) == 10 * (pow10((a - 1) as nat) * pow10(
            b,
        ))) by (nonlinear_arith);
    }
}

pub proof fn lemma_pow10_le(a: nat, b: nat)
    requires
        a <= b,
    ensures
        pow10(a) <= pow10(b),
    decreases b,
{
    if a < b {
        lemma_pow10_le(a, (b - 1) as nat);
        lemma_pow10_pos((b - 1) as nat);
    }
}

pub proof fn lemma_pow10_18()
    ensures
        pow10(18) == 1000000000000000000,
{
    reveal_with_fuel(pow10, 20);
}

/// The canonical digit run of `n < 10^k` has at most `k` digits.
pub proof fn lemma_dec_digits_len(n: int, k: int)
    requires
        0 <= n,
        1 <= k,
        n < pow10(k as nat),
    ensures
        dec_digits(n).len() <= k,
    decreases n,
{
    if n < 10 {
    } else {
        lemma_pow10_pos((k - 1) as nat);
        if k == 1 {
            assert(pow10(0) == 1);
        assert(pow10(1) == 10);
            assert(false);
        }
        vstd::arithmetic::div_mod::lemma_fundamental_div_mod(n, 10);
        assert(pow10(k as nat) == 10 * pow10((k - 1) as nat));
        assert(n / 10 < pow10((k - 1) as nat));
        lemma_dec_digits_len(n / 10, k - 1);
    }
}

/// A run of `n` zero digits.
pub open spec fn zeros(n: int) -> Seq<u8> {
    Seq::new(if n >= 0 { n as nat } else { 0 }, |i: int| 48u8)
}

pub proof fn lemma_zeros_digits(n: int)
    requires
        n >= 0,
    ensures
        all_digits(zeros(n)),
        digits_val(zeros(n)) == 0,
    decreases n,
{
    if n > 0 {
        lemma_zeros_digits(n - 1);
        assert(zeros(n).drop_last() =~= zeros(n - 1));
        assert(zeros(n).last() == 48);
    } else {
        assert(zeros(n) =~= Seq::<u8>::empty());
    }
}

/// Trailing `0` digits removed.
pub open spec fn strip_trailing_zeros(s: Seq<u8>) -> Seq<u8>
    decreases s.len(),
{
    if s.len() > 0 && s.last() == 48 {
        strip_trailing_zeros(s.drop_last())
    } else {
        s
    }
}

/// The value of `s` is the value of its stripped form shifted by the
/// number of zeros removed.
pub open spec fn strip_keeps_val(s: Seq<u8>) -> bool {
    let r = strip_trailing_zeros(s);
    digits_val(r) * pow10((s.len() - r.len()) as nat) == digits_val(s)
}

/// Stripping trailing zeros divides the value by the matching power of ten.
pub proof fn lemma_strip_trailing_zeros(s: Seq<u8>)
    requires
        all_digits(s),
    ensures
        all_digits(strip_trailing_zeros(s)),
        strip_trailing_zeros(s).len() <= s.len(),
        strip_keeps_val(s),
        (digits_val(s) != 0 ==> strip_trailing_zeros(s).len() >= 1),
        (strip_trailing_zeros(s).len() > 0 ==> strip_trailing_zeros(s).last() != 48),
    decreases s.len(),
{
    if s.len() > 0 && s.last() == 48 {
        let s1 = s.drop_last();
        assert(all_digits(s1));
        lemma_strip_trailing_zeros(s1);
        let r = strip_trailing_zeros(s);
        assert(r == strip_trailing_zeros(s1));
        assert(digits_val(s) == digits_val(s1) * 10);
        let e = (s1.len() - r.len()) as nat;
        assert(pow10(e + 1) == pow10(e) * pow10(1)) by {
            lemma_pow10_adds(e, 1);
        }
        assert(pow10(0) == 1);
        assert(pow10(1) == 10);
        assert(digits_val(r) * (pow10(e) * 10) == (digits_val(r) * pow10(e)) * 10)
            by (nonlinear_arith);
    }
}

/// Parses the boolean grammar.
pub fn parse_bool(s: &[u8]) -> (r: Option<bool>)
    ensures
        r == parse_bool_text(s@),
{
    if s.len() == 4 && s[0] == 116 && s[1] == 114 && s[2] == 117 && s[3] == 101 {
        proof {
            assert(s@ =~= seq![116u8, 114u8, 117u8, 101u8]);
        }
        Some(true)
    } else if s.len() == 5 && s[0] == 102 && s[1] == 97 && s[2] == 108 && s[3] == 115 && s[4]
        == 101 {
        proof {
            assert(s@ =~= seq![102u8, 97u8, 108u8, 115u8, 101u8]);
        }
        Some(false)
    } else {
        proof {
            if s@ == seq![116u8, 114u8, 117u8, 101u8] {
                assert(s@[0] == 116 && s@[1] == 114 && s@[2] == 117 && s@[3] == 101);
                assert(false);
            }
            if s@ == seq![102u8, 97u8, 108u8, 115u8, 101u8] {
                assert(s@[0] == 102 && s@[1] == 97 && s@[2] == 108 && s@[3] == 115 && s@[4]
                    == 101);
                assert(false);
            }
            if s@ =~= seq![116u8, 114u8, 117u8, 101u8] {
                assert(false);
            }
            if s@ =~= seq![102u8, 97u8, 108u8, 115u8, 101u8] {
                assert(false);
            }
        }
        None
    }
}

/// An unsigned parse, when it succeeds, yields a non-negative value.
pub proof fn lemma_parse_unsigned_nonneg(s: Seq<u8>)
    ensures
        (parse_unsigned_text(s) matches Some(v) ==> v >= 0),
{
    if s.len() > 0 && s[0] == 43 {
        if parse_digits(s.drop_first()) is Some {
            lemma_digits_val_nonneg(s.drop_first());
        }
    } else {
        if parse_digits(s) is Some {
            lemma_digits_val_nonneg(s);
        }
    }
}
} // verus!

