//! Resource amounts and their compact textual grammar: either a fungible
//! decimal quantity or a set of non-fungible unit ids, tied to a resource
//! address.  The textual form is `amount,address` or `#id,...,#id,address`.

use vstd::prelude::*;
use crate::address::{Address, parse_address_text, address_text, lemma_address_roundtrip};
use crate::decimal::{
    Decimal, DECIMAL_SCALE, parse_decimal_text, decimal_text, lemma_decimal_roundtrip,
    lemma_decimal_text_shape,
};
use crate::text::{
    split_commas, trim_text, trim, split_on_commas, comma_free, is_space, is_hex_digit, all_hex,
    parse_u128_text, parse_u128, dec_digits, is_digit, lemma_split_commas_len, lemma_split_single,
    lemma_split_push, join_commas, lemma_split_join, lemma_trim_clean, lemma_dec_digits_ok,
    lemma_dec_digits_roundtrip, lemma_hex_roundtrip, push_dec_digits,
};

verus! {

/// An error of the resource amount grammar.
#[derive(Clone, Copy, PartialEq, Eq, Structural, Debug)]
pub enum ParseResourceAmountError {
    InvalidAmount,
    InvalidNftId,
    InvalidResourceAddress,
    MissingResourceAddress,
}

/// Mathematical content of a resource amount: the fungible quantity in
/// atto-units, or the strictly increasing sequence of non-fungible ids.
pub ghost enum ResourceAmountV {
    Fungible { amount: int, resource_address: Seq<u8> },
    NonFungible { ids: Seq<u128>, resource_address: Seq<u8> },
}

/// Some amount of resource.
#[derive(Clone, PartialEq, Eq, Debug)]
pub enum ResourceAmount {
    Fungible { amount: Decimal, resource_address: Address },
    NonFungible { ids: Vec<u128>, resource_address: Address },
}

impl View for ResourceAmount {
    type V = ResourceAmountV;

    open spec fn view(&self) -> ResourceAmountV {
        match self {
            ResourceAmount::Fungible { amount, resource_address } => ResourceAmountV::Fungible {
                amount: amount@,
                resource_address: resource_address@,
            },
            ResourceAmount::NonFungible { ids, resource_address } => ResourceAmountV::NonFungible {
                ids: ids@,
                resource_address: resource_address@,
            },
        }
    }
}

/// Strictly ascending order: the sequence form of a set of ids.
pub open spec fn ids_sorted(s: Seq<u128>) -> bool {
    forall|i: int, j: int| 0 <= i < j < s.len() ==> s[i] < s[j]
}

/// Insertion into an ascending sequence, keeping duplicates out.
pub open spec fn sorted_insert(s: Seq<u128>, v: u128) -> Seq<u128>
    decreases s.len(),
{
    if s.len() == 0 {
        seq![v]
    } else if v < s[0] {
        seq![v] + s
    } else if v == s[0] {
        s
    } else {
        seq![s[0]] + sorted_insert(s.drop_first(), v)
    }
}

/// The id tokens of the non-fungible form, folded into an ascending
/// sequence; `None` on a missing `#` or a bad integer.
pub open spec fn parse_nft_ids(toks: Seq<Seq<u8>>, i: int, acc: Seq<u128>) -> Option<Seq<u128>>
    decreases toks.len() - i,
{
    if i < 0 || i >= toks.len() {
        Some(acc)
    } else {
        let tk = toks[i];
        if tk.len() > 0 && tk[0] == 35 {
            match parse_u128_text(tk.drop_first()) {
                Some(v) => parse_nft_ids(toks, i + 1, sorted_insert(acc, v)),
                None => None,
            }
        } else {
            None
        }
    }
}

/// The resource amount grammar.  The input is trimmed and split on `,`;
/// fewer than two tokens lack the address; the last token is the address;
/// a leading `#` selects the non-fungible form, in which every id token
/// must carry `#`; otherwise exactly two tokens give the fungible form.
pub open spec fn parse_resource_amount_text(s: Seq<u8>) -> Result<
    ResourceAmountV,
    ParseResourceAmountError,
> {
    let toks = split_commas(trim_text(s));
    if toks.len() < 2 {
        Err(ParseResourceAmountError::MissingResourceAddress)
    } else {
        match parse_address_text(toks.last()) {
            None => Err(ParseResourceAmountError::InvalidResourceAddress),
            Some(addr) => {
                if toks[0].len() > 0 && toks[0][0] == 35 {
                    match parse_nft_ids(toks.take(toks.len() - 1), 0, Seq::empty()) {
                        Some(ids) => Ok(
                            ResourceAmountV::NonFungible { ids, resource_address: addr },
                        ),
                        None => Err(ParseResourceAmountError::InvalidNftId),
                    }
                } else if toks.len() == 2 {
                    match parse_decimal_text(toks[0]) {
                        Some(a) => Ok(
                            ResourceAmountV::Fungible { amount: a, resource_address: addr },
                        ),
                        None => Err(ParseResourceAmountError::InvalidAmount),
                    }
                } else {
                    Err(ParseResourceAmountError::InvalidAmount)
                }
            },
        }
    }
}

/// The quantity of a resource amount, in atto-units: the fungible amount,
/// or the number of distinct ids.
pub open spec fn amount_attos(v: ResourceAmountV) -> int {
    match v {
        ResourceAmountV::Fungible { amount, .. } => amount,
        ResourceAmountV::NonFungible { ids, .. } => ids.len() * (DECIMAL_SCALE as int),
    }
}

/// The address a resource amount is tied to.
pub open spec fn address_of(v: ResourceAmountV) -> Seq<u8> {
    match v {
        ResourceAmountV::Fungible { resource_address, .. } => resource_address,
        ResourceAmountV::NonFungible { resource_address, .. } => resource_address,
    }
}

pub proof fn lemma_sorted_insert_sorted(s: Seq<u128>, v: u128)
    requires
        ids_sorted(s),
    ensures
        ids_sorted(sorted_insert(s, v)),
        sorted_insert(s, v).len() >= s.len(),
    decreases s.len(),
{
    if s.len() == 0 {
    } else if v < s[0] {
        let r = seq![v] + s;
        assert forall|i: int, j: int| 0 <= i < j < r.len() implies r[i] < r[j] by {
            if i > 0 {
                assert(r[i] == s[i - 1] && r[j] == s[j - 1]);
            } else if j > 0 {
                assert(r[j] == s[j - 1]);
                if j - 1 > 0 {
                    assert(s[0] < s[j - 1]);
                }
            }
        }
    } else if v == s[0] {
    } else {
        let s1 = s.drop_first();
        assert(ids_sorted(s1)) by {
            assert(forall|i: int, j: int|
                0 <= i < j < s1.len() ==> s1[i] == s[i + 1] && s1[j] == s[j + 1]);
        }
        lemma_sorted_insert_sorted(s1, v);
        let r1 = sorted_insert(s1, v);
        let r = seq![s[0]] + r1;
        assert(forall|k: int| 0 <= k < r1.len() ==> s[0] < #[trigger] r1[k]) by {
            lemma_sorted_insert_elems(s1, v);
            assert(forall|k: int|
                0 <= k < s1.len() ==> s[0] < #[trigger] s1[k] || s1[k] == s[k + 1]);
            assert(forall|k: int| 0 <= k < s1.len() ==> s[0] < #[trigger] s1[k]);
        }
        assert forall|i: int, j: int| 0 <= i < j < r.len() implies r[i] < r[j] by {
            if i > 0 {
                assert(r[i] == r1[i - 1] && r[j] == r1[j - 1]);
            } else {
                assert(r[j] == r1[j - 1]);
            }
        }
    }
}

/// Every element of `sorted_insert(s, v)` is an element of `s` or is `v`.
pub proof fn lemma_sorted_insert_elems(s: Seq<u128>, v: u128)
    ensures
        forall|k: int|
            0 <= k < sorted_insert(s, v).len() ==> (#[trigger] sorted_insert(s, v)[k] == v
                || s.contains(sorted_insert(s, v)[k])),
    decreases s.len(),
{
    if s.len() == 0 {
    } else if v < s[0] {
    } else if v == s[0] {
        assert(forall|k: int| 0 <= k < s.len() ==> s.contains(#[trigger] s[k]));
    } else {
        let s1 = s.drop_first();
        lemma_sorted_insert_elems(s1, v);
        let r = sorted_insert(s, v);
        let r1 = sorted_insert(s1, v);
        assert forall|k: int| 0 <= k < r.len() implies (#[trigger] r[k] == v || s.contains(
            r[k],
        )) by {
            if k == 0 {
                assert(r[0] == s[0]);
                assert(s.contains(s[0]));
            } else {
                assert(r[k] == r1[k - 1]);
                if r1[k - 1] != v {
                    assert(s1.contains(r1[k - 1]));
                    let w = choose|m: int| 0 <= m < s1.len() && s1[m] == r1[k - 1];
                    assert(s[w + 1] == s1[w]);
                    assert(s.contains(s[w + 1]));
                }
            }
        }
    }
}

/// Inserting a value above every element appends it.
pub proof fn lemma_sorted_insert_append(s: Seq<u128>, v: u128)
    requires
        forall|k: int| 0 <= k < s.len() ==> #[trigger] s[k] < v,
    ensures
        sorted_insert(s, v) == s.push(v),
    decreases s.len(),
{
    if s.len() == 0 {
        assert(sorted_insert(s, v) =~= s.push(v));
    } else {
        assert(s[0] < v);
        let s1 = s.drop_first();
        assert(forall|k: int| 0 <= k < s1.len() ==> #[trigger] s1[k] == s[k + 1]);
        lemma_sorted_insert_append(s1, v);
        assert(seq![s[0]] + s1.push(v) =~= s.push(v));
    }
}

impl ResourceAmount {
    /// Internal order invariant: non-fungible ids ascend strictly.
    pub open spec fn wf(&self) -> bool {
        match self {
            ResourceAmount::Fungible { .. } => true,
            ResourceAmount::NonFungible { ids, .. } => ids_sorted(ids@),
        }
    }

    /// The quantity: the fungible amount, or the number of ids.
    pub fn amount(&self) -> (r: Decimal)
        ensures
            r@ == amount_attos(self@),
    {
        match self {
            ResourceAmount::Fungible { amount, .. } => *amount,
            ResourceAmount::NonFungible { ids, .. } => {
                let l = ids.len();
                proof {
                    assert(usize::MAX <= u64::MAX);
                    assert((l as int) * (DECIMAL_SCALE as int) <= (u64::MAX as int) * (
                    DECIMAL_SCALE as int)) by (nonlinear_arith)
                        requires
                            0 <= l <= u64::MAX as int,
                    ;
                    assert((l as int) * (DECIMAL_SCALE as int) >= 0) by (nonlinear_arith);
                }
                Decimal::from_attos((l as i128) * DECIMAL_SCALE)
            },
        }
    }

    /// The resource address.
    pub fn resource_address(&self) -> (r: Address)
        ensures
            r@ == address_of(self@),
    {
        match self {
            ResourceAmount::Fungible { resource_address, .. } => *resource_address,
            ResourceAmount::NonFungible { resource_address, .. } => *resource_address,
        }
    }

    /// Parses the resource amount grammar from raw bytes.
    pub fn from_bytes(s: &[u8]) -> (r: Result<ResourceAmount, ParseResourceAmountError>)
        ensures
            match parse_resource_amount_text(s@) {
                Ok(v) => r is Ok && r.unwrap()@ == v && r.unwrap().wf(),
                Err(e) => r is Err && r.unwrap_err() == e,
            },
    {
        let trimmed = trim(s);
        let toks = split_on_commas(trimmed.as_slice());
        let ghost tv = split_commas(trim_text(s@));
        proof {
            assert(toks.deep_view() == tv);
            lemma_split_commas_len(trim_text(s@));
            assert(toks.deep_view().len() == toks@.len());
        }
        let n = toks.len();
        if n < 2 {
            return Err(ParseResourceAmountError::MissingResourceAddress);
        }
        proof {
            assert(toks@[n - 1]@ == tv.last());
        }
        let addr = match Address::from_text(toks[n - 1].as_slice()) {
            None => {
                return Err(ParseResourceAmountError::InvalidResourceAddress);
            },
            Some(a) => a,
        };
        proof {
            assert(toks@[0]@ == tv[0]);
        }
        if toks[0].len() > 0 && toks[0][0] == 35 {
            let ghost idtoks = tv.take(tv.len() - 1);
            let mut ids: Vec<u128> = Vec::new();
            let mut i: usize = 0;
            while i < n - 1
                invariant
                    0 <= i <= n - 1,
                    n == toks@.len() == tv.len(),
                    n >= 2,
                    toks.deep_view() == tv,
                    idtoks == tv.take(tv.len() - 1),
                    ids_sorted(ids@),
                    parse_nft_ids(idtoks, i as int, ids@) == parse_nft_ids(
                        idtoks,
                        0,
                        Seq::empty(),
                    ),
                    ({
                        let total = parse_nft_ids(idtoks, 0, Seq::<u128>::empty());
                        parse_resource_amount_text(s@) == match total {
                            Some(x) => Ok::<ResourceAmountV, ParseResourceAmountError>(
                                ResourceAmountV::NonFungible { ids: x, resource_address: addr@ },
                            ),
                            None => Err(ParseResourceAmountError::InvalidNftId),
                        }
                    }),
                decreases n - 1 - i,
            {
                proof {
                    assert(idtoks[i as int] == toks@[i as int]@);
                }
                let tk = &toks[i];
                if tk.len() == 0 || tk[0] != 35 {
                    proof {
                        assert(idtoks[i as int] == tk@);
                        assert(parse_nft_ids(idtoks, i as int, ids@) is None);
                        assert(parse_nft_ids(idtoks, 0, Seq::empty()) is None);
                    }
                    return Err(ParseResourceAmountError::InvalidNftId);
                }
                let mut rest: Vec<u8> = Vec::new();
                let mut j: usize = 1;
                while j < tk.len()
                    invariant
                        1 <= j <= tk@.len(),
                        rest@ == tk@.subrange(1, j as int),
                    decreases tk@.len() - j,
                {
                    rest.push(tk[j]);
                    proof {
                        assert(tk@.subrange(1, j + 1) =~= tk@.subrange(1, j as int).push(
                            tk@[j as int],
                        ));
                    }
                    j = j + 1;
                }
                proof {
                    assert(rest@ =~= tk@.drop_first());
                }
                let v = match parse_u128(rest.as_slice()) {
                    None => {
                        proof {
                            assert(idtoks[i as int] == tk@);
                            assert(parse_u128_text(idtoks[i as int].drop_first()) is None);
                            assert(parse_nft_ids(idtoks, i as int, ids@) is None);
                            assert(parse_nft_ids(idtoks, 0, Seq::empty()) is None);
                        }
                        return Err(ParseResourceAmountError::InvalidNftId);
                    },
                    Some(v) => v,
                };
                let ghost old_ids = ids@;
                let mut k: usize = 0;
                while k < ids.len() && ids[k] < v
                    invariant
                        0 <= k <= ids@.len(),
                        ids@ == old_ids,
                        forall|m: int| 0 <= m < k ==> old_ids[m] < v,
                    decreases ids@.len() - k,
                {
                    k = k + 1;
                }
                if k < ids.len() && ids[k] == v {
                    proof {
                        lemma_sorted_insert_skip(old_ids, v, k as int);
                    }
                } else {
                    proof {
                        lemma_sorted_insert_at(old_ids, v, k as int);
                    }
                    ids.insert(k, v);
                }
                proof {
                    lemma_sorted_insert_sorted(old_ids, v);
                    assert(ids@ == sorted_insert(old_ids, v));
                }
                i = i + 1;
            }
            proof {
                assert(parse_nft_ids(idtoks, (n - 1) as int, ids@) == Some(ids@));
            }
            Ok(ResourceAmount::NonFungible { ids, resource_address: addr })
        } else if n == 2 {
            match Decimal::parse(toks[0].as_slice()) {
                None => Err(ParseResourceAmountError::InvalidAmount),
                Some(a) => Ok(ResourceAmount::Fungible { amount: a, resource_address: addr }),
            }
        } else {
            Err(ParseResourceAmountError::InvalidAmount)
        }
    }

    /// Parses the resource amount grammar.
    pub fn from_str(s: &str) -> (r: Result<ResourceAmount, ParseResourceAmountError>)
        ensures
            match parse_resource_amount_text(crate::text::chars_bytes(s@)) {
                Ok(v) => r is Ok && r.unwrap()@ == v && r.unwrap().wf(),
                Err(e) => r is Err && r.unwrap_err() == e,
            },
    {
        Self::from_bytes(s.as_bytes())
    }
}

/// Inserting a value already present at `idx` changes nothing.
proof fn lemma_sorted_insert_skip(s: Seq<u128>, v: u128, idx: int)
    requires
        0 <= idx < s.len(),
        s[idx] == v,
        forall|m: int| 0 <= m < idx ==> #[trigger] s[m] < v,
    ensures
        sorted_insert(s, v) == s,
    decreases idx,
{
    if idx == 0 {
    } else {
        assert(s[0] < v);
        let s1 = s.drop_first();
        assert(forall|m: int| 0 <= m < s1.len() ==> #[trigger] s1[m] == s[m + 1]);
        lemma_sorted_insert_skip(s1, v, idx - 1);
        assert(seq![s[0]] + s1 =~= s);
    }
}

/// Inserting a value at its ordered position splices it in.
proof fn lemma_sorted_insert_at(s: Seq<u128>, v: u128, idx: int)
    requires
        0 <= idx <= s.len(),
        forall|m: int| 0 <= m < idx ==> #[trigger] s[m] < v,
        idx < s.len() ==> v < s[idx] || v == s[idx],
        idx < s.len() ==> s[idx] != v,
    ensures
        sorted_insert(s, v) == s.insert(idx, v),
    decreases idx,
{
    if idx == 0 {
        if s.len() == 0 {
            assert(sorted_insert(s, v) =~= s.insert(0, v));
        } else {
            assert(v < s[0]);
            assert(seq![v] + s =~= s.insert(0, v));
        }
    } else {
        assert(s[0] < v);
        let s1 = s.drop_first();
        assert(forall|m: int| 0 <= m < s1.len() ==> #[trigger] s1[m] == s[m + 1]);
        lemma_sorted_insert_at(s1, v, idx - 1);
        assert(seq![s[0]] + s1.insert(idx - 1, v) =~= s.insert(idx, v));
    }
}


impl ResourceAmount {
    /// Canonical text of this amount: `amount,address` for the fungible
    /// form, `#id,...,#id,address` for the non-fungible form.
    pub fn to_text(&self) -> (r: Vec<u8>)
        ensures
            match self@ {
                ResourceAmountV::Fungible { amount, resource_address } => r@ == fungible_text(
                    amount,
                    resource_address,
                ),
                ResourceAmountV::NonFungible { ids, resource_address } => r@ == nft_text(
                    ids,
                    resource_address,
                ),
            },
    {
        match self {
            ResourceAmount::Fungible { amount, resource_address } => {
                let mut out = amount.to_text();
                out.push(44);
                let mut hx = resource_address.to_text();
                out.append(&mut hx);
                proof {
                    assert(out@ =~= fungible_text(amount@, resource_address@));
                }
                out
            },
            ResourceAmount::NonFungible { ids, resource_address } => {
                let ghost idtoks = ids@.map_values(
                    |v: u128| seq![35u8] + dec_digits(v as int),
                );
                let mut out: Vec<u8> = Vec::new();
                let mut i: usize = 0;
                while i < ids.len()
                    invariant
                        i <= ids@.len(),
                        idtoks == ids@.map_values(|v: u128| seq![35u8] + dec_digits(v as int)),
                        idtoks.len() == ids@.len(),
                        i == 0 ==> out@ == Seq::<u8>::empty(),
                        i > 0 ==> out@ == join_commas(idtoks.take(i as int)),
                    decreases ids@.len() - i,
                {
                    if i > 0 {
                        out.push(44);
                    }
                    let ghost pre = out@;
                    out.push(35);
                    push_dec_digits(ids[i], &mut out);
                    proof {
                        assert(out@ =~= pre + (seq![35u8] + dec_digits(ids@[i as int] as int)));
                        assert(idtoks[i as int] == seq![35u8] + dec_digits(ids@[i as int] as int));
                        if i == 0 {
                            assert(idtoks.take(1) =~= seq![idtoks[0]]);
                            assert(join_commas(seq![idtoks[0]]) == idtoks[0]);
                            assert(out@ =~= idtoks[0]);
                        } else {
                            assert(idtoks.take(i + 1).drop_last() =~= idtoks.take(i as int));
                            assert(join_commas(idtoks.take(i + 1)) == join_commas(
                                idtoks.take(i as int),
                            ) + seq![44u8] + idtoks[i as int]);
                            assert(out@ =~= join_commas(idtoks.take(i + 1)));
                        }
                    }
                    i = i + 1;
                }
                let mut hx = resource_address.to_text();
                if ids.len() > 0 {
                    out.push(44);
                }
                out.append(&mut hx);
                proof {
                    let allv = idtoks.push(address_text(resource_address@));
                    if ids@.len() == 0 {
                        assert(allv.len() == 1);
                        assert(join_commas(allv) == allv[0]);
                        assert(out@ =~= allv[0]);
                    } else {
                        assert(idtoks.take(ids@.len() as int) =~= idtoks);
                        assert(allv.drop_last() =~= idtoks);
                        assert(join_commas(allv) == join_commas(idtoks) + seq![44u8]
                            + address_text(resource_address@));
                        assert(out@ =~= join_commas(allv));
                    }
                    assert(out@ == nft_text(ids@, resource_address@));
                }
                out
            },
        }
    }
}

// ---------------------------------------------------------------------------
// Canonical formatting and the grammar round trip
// ---------------------------------------------------------------------------

/// Canonical text of a fungible amount: `amount,address`.
pub open spec fn fungible_text(amount: int, addr: Seq<u8>) -> Seq<u8> {
    decimal_text(amount) + seq![44u8] + address_text(addr)
}

/// Canonical text of a set of non-fungible ids: `#id,...,#id,address`.
pub open spec fn nft_text(ids: Seq<u128>, addr: Seq<u8>) -> Seq<u8> {
    join_commas(ids.map_values(|v: u128| seq![35u8] + dec_digits(v as int)).push(address_text(addr)))
}

/// Formatting any fungible amount and parsing it back gives the amount.
pub proof fn lemma_fungible_roundtrip(amount: int, addr: Seq<u8>)
    requires
        i128::MIN <= amount <= i128::MAX,
        addr.len() == 26,
    ensures
        parse_resource_amount_text(fungible_text(amount, addr)) == Ok::<
            ResourceAmountV,
            ParseResourceAmountError,
        >(ResourceAmountV::Fungible { amount, resource_address: addr }),
{
    let dec = decimal_text(amount);
    let hex = address_text(addr);
    let txt = fungible_text(amount, addr);
    lemma_decimal_text_shape(amount);
    lemma_hex_roundtrip(addr);
    assert(hex.len() == 52);
    assert forall|k: int| 0 <= k < hex.len() implies #[trigger] hex[k] != 44 && !is_space(hex[k])
        && hex[k] != 35 by {
        assert(is_hex_digit(hex[k]));
    }
    assert(txt.len() > 0);
    assert(txt[0] == dec[0]);
    assert(txt.last() == hex.last());
    lemma_trim_clean(txt);
    lemma_split_single(dec);
    lemma_split_push(dec, hex);
    let toks = split_commas(txt);
    assert(toks == seq![dec].push(hex));
    assert(toks.len() == 2);
    assert(toks.last() == hex);
    lemma_address_roundtrip(addr);
    assert(toks[0] == dec);
    assert(dec[0] != 35);
    lemma_decimal_roundtrip(amount);
}

/// Ids above every id of an ascending sequence fold to the sequence with
/// the new ids appended; the shape of the id-token list parses exactly.
proof fn lemma_parse_nft_tokens(ids: Seq<u128>, i: int)
    requires
        ids_sorted(ids),
        0 <= i <= ids.len(),
    ensures
        parse_nft_ids(
            ids.map_values(|v: u128| seq![35u8] + dec_digits(v as int)),
            i,
            ids.take(i),
        ) == Some(ids),
    decreases ids.len() - i,
{
    let toks = ids.map_values(|v: u128| seq![35u8] + dec_digits(v as int));
    if i == ids.len() {
        assert(ids.take(i) =~= ids);
    } else {
        let tk = toks[i];
        let v = ids[i];
        lemma_dec_digits_ok(v as int);
        assert(tk == seq![35u8] + dec_digits(v as int));
        assert(tk[0] == 35);
        assert(tk.len() > 0);
        assert(tk.drop_first() =~= dec_digits(v as int));
        lemma_dec_digits_roundtrip(v as int);
        assert(parse_u128_text(tk.drop_first()) == Some(v));
        assert(forall|k: int| 0 <= k < i ==> #[trigger] ids.take(i)[k] == ids[k]);
        assert(forall|k: int| 0 <= k < i ==> #[trigger] ids.take(i)[k] < v);
        lemma_sorted_insert_append(ids.take(i), v);
        assert(ids.take(i).push(v) =~= ids.take(i + 1));
        lemma_parse_nft_tokens(ids, i + 1);
    }
}

/// Formatting any non-empty ascending id set and parsing it back gives the
/// set.
pub proof fn lemma_nft_roundtrip(ids: Seq<u128>, addr: Seq<u8>)
    requires
        ids_sorted(ids),
        ids.len() >= 1,
        addr.len() == 26,
    ensures
        parse_resource_amount_text(nft_text(ids, addr)) == Ok::<
            ResourceAmountV,
            ParseResourceAmountError,
        >(ResourceAmountV::NonFungible { ids, resource_address: addr }),
{
    let idtoks = ids.map_values(|v: u128| seq![35u8] + dec_digits(v as int));
    let hex = address_text(addr);
    let all = idtoks.push(hex);
    let txt = nft_text(ids, addr);
    lemma_hex_roundtrip(addr);
    assert forall|k: int| 0 <= k < hex.len() implies #[trigger] hex[k] != 44 && !is_space(hex[k])
        by {
        assert(is_hex_digit(hex[k]));
    }
    assert forall|t: int| 0 <= t < idtoks.len() implies comma_free(#[trigger] idtoks[t]) by {
        let v = ids[t];
        lemma_dec_digits_ok(v as int);
        let tk = idtoks[t];
        assert(tk == seq![35u8] + dec_digits(v as int));
        assert forall|k: int| 0 <= k < tk.len() implies #[trigger] tk[k] != 44 by {
            if k > 0 {
                assert(tk[k] == dec_digits(v as int)[k - 1]);
                assert(is_digit(tk[k]));
            }
        }
    }
    assert(comma_free(hex));
    assert forall|t: int| 0 <= t < all.len() implies comma_free(#[trigger] all[t]) by {
        if t < idtoks.len() {
            assert(all[t] == idtoks[t]);
        } else {
            assert(all[t] == hex);
        }
    }
    lemma_split_join(all);
    // the joined text is clean at both ends: `#` first, a hex digit last
    lemma_join_first_last(ids, addr);
    let txt2 = trim_text(txt);
    lemma_trim_clean(txt);
    let toks = split_commas(txt);
    assert(toks == all);
    assert(toks.len() == ids.len() + 1);
    assert(toks.last() == hex);
    lemma_address_roundtrip(addr);
    let tk0 = toks[0];
    assert(tk0 == idtoks[0]);
    assert(tk0[0] == 35);
    assert(tk0.len() > 0);
    assert(toks.take(toks.len() - 1) =~= idtoks);
    assert(ids.take(0) =~= Seq::<u128>::empty());
    lemma_parse_nft_tokens(ids, 0);
}

/// The canonical non-fungible text starts with `#` and ends with a hex
/// digit, so trimming leaves it unchanged.
proof fn lemma_join_first_last(ids: Seq<u128>, addr: Seq<u8>)
    requires
        ids.len() >= 1,
        addr.len() == 26,
    ensures
        nft_text(ids, addr).len() > 0,
        !is_space(nft_text(ids, addr)[0]),
        !is_space(nft_text(ids, addr).last()),
    decreases ids.len(),
{
    let idtoks = ids.map_values(|v: u128| seq![35u8] + dec_digits(v as int));
    let hex = address_text(addr);
    let all = idtoks.push(hex);
    let txt = nft_text(ids, addr);
    lemma_hex_roundtrip(addr);
    assert(txt == join_commas(all));
    assert(all.len() >= 2);
    assert(join_commas(all) == join_commas(all.drop_last()) + seq![44u8] + hex);
    assert(txt.last() == hex.last());
    assert(is_hex_digit(hex.last()));
    lemma_join_first(ids, addr, all.len() as int);
    assert(all.take(all.len() as int) =~= all);
    assert(all[0] == idtoks[0]);
    assert(all[0][0] == 35);
    assert(txt[0] == 35);
}

/// The first byte of any non-empty prefix join of the id tokens is `#`.
proof fn lemma_join_first(ids: Seq<u128>, addr: Seq<u8>, k: int)
    requires
        ids.len() >= 1,
        addr.len() == 26,
        1 <= k <= ids.len() + 1,
    ensures
        ({
            let all = ids.map_values(|v: u128| seq![35u8] + dec_digits(v as int)).push(
                address_text(addr),
            );
            join_commas(all.take(k)).len() > 0 && join_commas(all.take(k))[0] == all[0][0]
        }),
    decreases k,
{
    let all = ids.map_values(|v: u128| seq![35u8] + dec_digits(v as int)).push(
        address_text(addr),
    );
    lemma_hex_roundtrip(addr);
    if k == 1 {
        assert(all.take(1) =~= seq![all[0]]);
        assert(join_commas(seq![all[0]]) == all[0]);
        assert(all[0] == ids.map_values(|v: u128| seq![35u8] + dec_digits(v as int))[0]);
        assert(all[0].len() > 0);
    } else {
        lemma_join_first(ids, addr, k - 1);
        let p = all.take(k);
        assert(p.drop_last() =~= all.take(k - 1));
        assert(p.len() >= 2);
        assert(join_commas(p) == join_commas(all.take(k - 1)) + seq![44u8] + p.last());
        assert(join_commas(p)[0] == join_commas(all.take(k - 1))[0]);
    }
}

} // verus!
