//! Serialization of argument values to bytes.  Each primitive payload is
//! encoded by the structured-serialization codec of the `sbor` crate; this
//! module frames those payloads with a tag per value shape and length
//! prefixes for the compound shapes.

use vstd::prelude::*;
use crate::big_decimal::BigDecimalV;
use crate::resource::{NewSupplyV, ResourceType};
use crate::value::{Value, ValueV};

verus! {

pub uninterp spec fn sbor_bool_bytes(v: bool) -> Seq<u8>;

pub uninterp spec fn sbor_i8_bytes(v: i8) -> Seq<u8>;

pub uninterp spec fn sbor_i16_bytes(v: i16) -> Seq<u8>;

pub uninterp spec fn sbor_i32_bytes(v: i32) -> Seq<u8>;

pub uninterp spec fn sbor_i64_bytes(v: i64) -> Seq<u8>;

pub uninterp spec fn sbor_i128_bytes(v: i128) -> Seq<u8>;

pub uninterp spec fn sbor_u8_bytes(v: u8) -> Seq<u8>;

pub uninterp spec fn sbor_u16_bytes(v: u16) -> Seq<u8>;

pub uninterp spec fn sbor_u32_bytes(v: u32) -> Seq<u8>;

pub uninterp spec fn sbor_u64_bytes(v: u64) -> Seq<u8>;

pub uninterp spec fn sbor_u128_bytes(v: u128) -> Seq<u8>;

pub uninterp spec fn sbor_str_bytes(s: Seq<char>) -> Seq<u8>;

pub uninterp spec fn sbor_blob_bytes(b: Seq<u8>) -> Seq<u8>;

/// Relies on sbor::basic_encode for bool: the payload is a function of the
/// value alone.
#[verifier::external_body]
fn encode_bool(v: bool) -> (r: Option<Vec<u8>>)
    ensures
        (r matches Some(b) ==> b@ == sbor_bool_bytes(v)),
{
    sbor::basic_encode(&v).ok()
}

/// Relies on sbor::basic_encode for i8.
#[verifier::external_body]
fn encode_i8(v: i8) -> (r: Option<Vec<u8>>)
    ensures
        (r matches Some(b) ==> b@ == sbor_i8_bytes(v)),
{
    sbor::basic_encode(&v).ok()
}

/// Relies on sbor::basic_encode for i16.
#[verifier::external_body]
fn encode_i16(v: i16) -> (r: Option<Vec<u8>>)
    ensures
        (r matches Some(b) ==> b@ == sbor_i16_bytes(v)),
{
    sbor::basic_encode(&v).ok()
}

/// Relies on sbor::basic_encode for i32.
#[verifier::external_body]
fn encode_i32(v: i32) -> (r: Option<Vec<u8>>)
    ensures
        (r matches Some(b) ==> b@ == sbor_i32_bytes(v)),
{
    sbor::basic_encode(&v).ok()
}

/// Relies on sbor::basic_encode for i64.
#[verifier::external_body]
fn encode_i64(v: i64) -> (r: Option<Vec<u8>>)
    ensures
        (r matches Some(b) ==> b@ == sbor_i64_bytes(v)),
{
    sbor::basic_encode(&v).ok()
}

/// Relies on sbor::basic_encode for i128.
#[verifier::external_body]
fn encode_i128(v: i128) -> (r: Option<Vec<u8>>)
    ensures
        (r matches Some(b) ==> b@ == sbor_i128_bytes(v)),
{
    sbor::basic_encode(&v).ok()
}

/// Relies on sbor::basic_encode for u8.
#[verifier::external_body]
fn encode_u8(v: u8) -> (r: Option<Vec<u8>>)
    ensures
        (r matches Some(b) ==> b@ == sbor_u8_bytes(v)),
{
    sbor::basic_encode(&v).ok()
}

/// Relies on sbor::basic_encode for u16.
#[verifier::external_body]
fn encode_u16(v: u16) -> (r: Option<Vec<u8>>)
    ensures
        (r matches Some(b) ==> b@ == sbor_u16_bytes(v)),
{
    sbor::basic_encode(&v).ok()
}

/// Relies on sbor::basic_encode for u32.
#[verifier::external_body]
fn encode_u32(v: u32) -> (r: Option<Vec<u8>>)
    ensures
        (r matches Some(b) ==> b@ == sbor_u32_bytes(v)),
{
    sbor::basic_encode(&v).ok()
}

/// Relies on sbor::basic_encode for u64.
#[verifier::external_body]
fn encode_u64(v: u64) -> (r: Option<Vec<u8>>)
    ensures
        (r matches Some(b) ==> b@ == sbor_u64_bytes(v)),
{
    sbor::basic_encode(&v).ok()
}

/// Relies on sbor::basic_encode for u128.
#[verifier::external_body]
fn encode_u128(v: u128) -> (r: Option<Vec<u8>>)
    ensures
        (r matches Some(b) ==> b@ == sbor_u128_bytes(v)),
{
    sbor::basic_encode(&v).ok()
}

/// Relies on sbor::basic_encode for str: the payload depends on the
/// characters alone.
#[verifier::external_body]
fn encode_str(s: &str) -> (r: Option<Vec<u8>>)
    ensures
        (r matches Some(b) ==> b@ == sbor_str_bytes(s@)),
{
    sbor::basic_encode(s).ok()
}

/// Relies on sbor::basic_encode for a byte slice.
#[verifier::external_body]
fn encode_blob(v: &[u8]) -> (r: Option<Vec<u8>>)
    ensures
        (r matches Some(b) ==> b@ == sbor_blob_bytes(v@)),
{
    sbor::basic_encode(v).ok()
}

/// A length, as eight little-endian bytes.
pub open spec fn len_bytes(n: int) -> Seq<u8> {
    seq![
        (n % 256) as u8,
        ((n / 256) % 256) as u8,
        ((n / 65536) % 256) as u8,
        ((n / 16777216) % 256) as u8,
        ((n / 4294967296) % 256) as u8,
        ((n / 1099511627776) % 256) as u8,
        ((n / 281474976710656) % 256) as u8,
        ((n / 72057594037927936) % 256) as u8,
    ]
}

/// Payload of an id list.
pub open spec fn ids_payload(ids: Seq<u128>) -> Seq<u8>
    decreases ids.len(),
{
    if ids.len() == 0 {
        Seq::empty()
    } else {
        ids_payload(ids.drop_last()) + sbor_u128_bytes(ids.last())
    }
}

/// Payload of a metadata list.
pub open spec fn meta_payload(m: Seq<(Seq<char>, Seq<char>)>) -> Seq<u8>
    decreases m.len(),
{
    if m.len() == 0 {
        Seq::empty()
    } else {
        meta_payload(m.drop_last()) + sbor_str_bytes(m.last().0) + sbor_str_bytes(m.last().1)
    }
}

/// Payload of an authority list.
pub open spec fn auth_payload(a: Seq<(Seq<u8>, u16)>) -> Seq<u8>
    decreases a.len(),
{
    if a.len() == 0 {
        Seq::empty()
    } else {
        auth_payload(a.drop_last()) + a.last().0 + sbor_u16_bytes(a.last().1)
    }
}

/// Payload of non-fungible supply entries.
pub open spec fn entries_payload(e: Seq<(u128, Seq<u8>)>) -> Seq<u8>
    decreases e.len(),
{
    if e.len() == 0 {
        Seq::empty()
    } else {
        entries_payload(e.drop_last()) + sbor_u128_bytes(e.last().0) + len_bytes(
            e.last().1.len() as int,
        ) + e.last().1
    }
}

/// The serialized form of a value: a tag for the shape, then the payload.
pub open spec fn value_bytes(v: ValueV) -> Seq<u8> {
    match v {
        ValueV::Bool(b) => seq![0u8] + sbor_bool_bytes(b),
        ValueV::I8(x) => seq![1u8] + sbor_i8_bytes(x),
        ValueV::I16(x) => seq![2u8] + sbor_i16_bytes(x),
        ValueV::I32(x) => seq![3u8] + sbor_i32_bytes(x),
        ValueV::I64(x) => seq![4u8] + sbor_i64_bytes(x),
        ValueV::I128(x) => seq![5u8] + sbor_i128_bytes(x),
        ValueV::U8(x) => seq![6u8] + sbor_u8_bytes(x),
        ValueV::U16(x) => seq![7u8] + sbor_u16_bytes(x),
        ValueV::U32(x) => seq![8u8] + sbor_u32_bytes(x),
        ValueV::U64(x) => seq![9u8] + sbor_u64_bytes(x),
        ValueV::U128(x) => seq![10u8] + sbor_u128_bytes(x),
        ValueV::Str(s) => seq![11u8] + sbor_str_bytes(s),
        ValueV::Dec(a) => seq![12u8] + sbor_i128_bytes(a as i128),
        ValueV::BigDec(d) => seq![13u8] + seq![
            if d.negative {
                1u8
            } else {
                0u8
            },
        ] + len_bytes(d.units.len() as int) + d.units + len_bytes(d.frac.len() as int) + d.frac,
        ValueV::Addr(b) => seq![14u8] + b,
        ValueV::Hash(b) => seq![15u8] + b,
        ValueV::Bucket(n) => seq![16u8] + sbor_u64_bytes(n as u64),
        ValueV::BucketRef(n) => seq![17u8] + sbor_u64_bytes(n as u64),
        ValueV::Blob(b) => seq![18u8] + sbor_blob_bytes(b),
        ValueV::NftIds(ids) => seq![19u8] + len_bytes(ids.len() as int) + ids_payload(ids),
        ValueV::Resource(rt) => seq![20u8] + match rt {
            ResourceType::Fungible { divisibility } => seq![0u8, divisibility],
            ResourceType::NonFungible => seq![1u8],
        },
        ValueV::Meta(m) => seq![21u8] + len_bytes(m.len() as int) + meta_payload(m),
        ValueV::Auth(a) => seq![22u8] + len_bytes(a.len() as int) + auth_payload(a),
        ValueV::Supply(s) => match s {
            None => seq![23u8, 0u8],
            Some(NewSupplyV::Fungible { amount }) => seq![23u8, 1u8] + sbor_i128_bytes(
                amount as i128,
            ),
            Some(NewSupplyV::NonFungible { entries }) => seq![23u8, 2u8] + len_bytes(
                entries.len() as int,
            ) + entries_payload(entries),
        },
    }
}

/// Appends eight little-endian length bytes.
fn push_len(out: &mut Vec<u8>, n: usize)
    ensures
        final(out)@ == old(out)@ + len_bytes(n as int),
{
    let m = n as u64;
    proof {
        assert(m == n as int);
    }
    out.push((m % 256) as u8);
    out.push(((m / 256) % 256) as u8);
    out.push(((m / 65536) % 256) as u8);
    out.push(((m / 16777216) % 256) as u8);
    out.push(((m / 4294967296) % 256) as u8);
    out.push(((m / 1099511627776) % 256) as u8);
    out.push(((m / 281474976710656) % 256) as u8);
    out.push(((m / 72057594037927936) % 256) as u8);
    proof {
        assert(final(out)@ =~= old(out)@ + len_bytes(n as int));
    }
}

/// Appends a produced piece.
fn push_piece(out: &mut Vec<u8>, piece: Vec<u8>)
    ensures
        final(out)@ == old(out)@ + piece@,
{
    let mut p = piece;
    out.append(&mut p);
}

/// Serializes a value; `None` only if the codec refuses a payload.
pub fn encode_value(v: &Value) -> (r: Option<Vec<u8>>)
    ensures
        (r matches Some(b) ==> b@ == value_bytes(v@)),
{
    let mut out: Vec<u8> = Vec::new();
    match v {
        Value::Bool(x) => {
            out.push(0);
            match encode_bool(*x) {
                None => {
                    return None;
                },
                Some(p) => push_piece(&mut out, p),
            }
        },
        Value::I8(x) => {
            out.push(1);
            match encode_i8(*x) {
                None => {
                    return None;
                },
                Some(p) => push_piece(&mut out, p),
            }
        },
        Value::I16(x) => {
            out.push(2);
            match encode_i16(*x) {
                None => {
                    return None;
                },
                Some(p) => push_piece(&mut out, p),
            }
        },
        Value::I32(x) => {
            out.push(3);
            match encode_i32(*x) {
                None => {
                    return None;
                },
                Some(p) => push_piece(&mut out, p),
            }
        },
        Value::I64(x) => {
            out.push(4);
            match encode_i64(*x) {
                None => {
                    return None;
                },
                Some(p) => push_piece(&mut out, p),
            }
        },
        Value::I128(x) => {
            out.push(5);
            match encode_i128(*x) {
                None => {
                    return None;
                },
                Some(p) => push_piece(&mut out, p),
            }
        },
        Value::U8(x) => {
            out.push(6);
            match encode_u8(*x) {
                None => {
                    return None;
                },
                Some(p) => push_piece(&mut out, p),
            }
        },
        Value::U16(x) => {
            out.push(7);
            match encode_u16(*x) {
                None => {
                    return None;
                },
                Some(p) => push_piece(&mut out, p),
            }
        },
        Value::U32(x) => {
            out.push(8);
            match encode_u32(*x) {
                None => {
                    return None;
                },
                Some(p) => push_piece(&mut out, p),
            }
        },
        Value::U64(x) => {
            out.push(9);
            match encode_u64(*x) {
                None => {
                    return None;
                },
                Some(p) => push_piece(&mut out, p),
            }
        },
        Value::U128(x) => {
            out.push(10);
            match encode_u128(*x) {
                None => {
                    return None;
                },
                Some(p) => push_piece(&mut out, p),
            }
        },
        Value::Str(s) => {
            out.push(11);
            match encode_str(s.as_str()) {
                None => {
                    return None;
                },
                Some(p) => push_piece(&mut out, p),
            }
        },
        Value::Dec(d) => {
            out.push(12);
            match encode_i128(d.attos()) {
                None => {
                    return None;
                },
                Some(p) => push_piece(&mut out, p),
            }
        },
        Value::BigDec(d) => {
            out.push(13);
            if d.is_negative() {
                out.push(1);
            } else {
                out.push(0);
            }
            let units = d.unit_digits();
            push_len(&mut out, units.len());
            let mut i: usize = 0;
            while i < units.len()
                invariant
                    i <= units@.len(),
                    out@ == seq![13u8] + seq![
                        if d@.negative {
                            1u8
                        } else {
                            0u8
                        },
                    ] + len_bytes(units@.len() as int) + units@.take(i as int),
                    units@ == d@.units,
                decreases units@.len() - i,
            {
                out.push(units[i]);
                proof {
                    assert(out@ =~= seq![13u8] + seq![
                        if d@.negative {
                            1u8
                        } else {
                            0u8
                        },
                    ] + len_bytes(units@.len() as int) + units@.take(i + 1));
                }
                i = i + 1;
            }
            proof {
                assert(units@.take(units@.len() as int) =~= units@);
            }
            let ghost pre = out@;
            let frac = d.frac_digits();
            push_len(&mut out, frac.len());
            let mut j: usize = 0;
            while j < frac.len()
                invariant
                    j <= frac@.len(),
                    out@ == pre + len_bytes(frac@.len() as int) + frac@.take(j as int),
                    frac@ == d@.frac,
                decreases frac@.len() - j,
            {
                out.push(frac[j]);
                proof {
                    assert(out@ =~= pre + len_bytes(frac@.len() as int) + frac@.take(j + 1));
                }
                j = j + 1;
            }
            proof {
                assert(frac@.take(frac@.len() as int) =~= frac@);
                assert(out@ =~= value_bytes(v@));
            }
        },
        Value::Addr(a) => {
            out.push(14);
            let raw = a.to_vec();
            push_piece(&mut out, raw);
        },
        Value::Hash(h) => {
            out.push(15);
            let raw = h.to_vec();
            push_piece(&mut out, raw);
        },
        Value::Bucket(n) => {
            out.push(16);
            match encode_u64(*n as u64) {
                None => {
                    return None;
                },
                Some(p) => push_piece(&mut out, p),
            }
        },
        Value::BucketRef(n) => {
            out.push(17);
            match encode_u64(*n as u64) {
                None => {
                    return None;
                },
                Some(p) => push_piece(&mut out, p),
            }
        },
        Value::Blob(b) => {
            out.push(18);
            match encode_blob(b.as_slice()) {
                None => {
                    return None;
                },
                Some(p) => push_piece(&mut out, p),
            }
        },
        Value::NftIds(ids) => {
            out.push(19);
            push_len(&mut out, ids.len());
            let ghost pre = out@;
            let mut i: usize = 0;
            while i < ids.len()
                invariant
                    i <= ids@.len(),
                    out@ == pre + ids_payload(ids@.take(i as int)),
                decreases ids@.len() - i,
            {
                match encode_u128(ids[i]) {
                    None => {
                        return None;
                    },
                    Some(p) => push_piece(&mut out, p),
                }
                proof {
                    assert(ids@.take(i + 1).drop_last() =~= ids@.take(i as int));
                    assert(out@ =~= pre + ids_payload(ids@.take(i + 1)));
                }
                i = i + 1;
            }
            proof {
                assert(ids@.take(ids@.len() as int) =~= ids@);
            }
        },
        Value::Resource(rt) => {
            out.push(20);
            match rt {
                ResourceType::Fungible { divisibility } => {
                    out.push(0);
                    out.push(*divisibility);
                },
                ResourceType::NonFungible => {
                    out.push(1);
                },
            }
            proof {
                assert(out@ =~= value_bytes(v@));
            }
        },
        Value::Meta(m) => {
            out.push(21);
            push_len(&mut out, m.len());
            let ghost mv = crate::value::meta_views(m@);
            let ghost pre = out@;
            let mut i: usize = 0;
            while i < m.len()
                invariant
                    i <= m@.len(),
                    mv == crate::value::meta_views(m@),
                    mv.len() == m@.len(),
                    out@ == pre + meta_payload(mv.take(i as int)),
                decreases m@.len() - i,
            {
                match encode_str(m[i].0.as_str()) {
                    None => {
                        return None;
                    },
                    Some(p) => push_piece(&mut out, p),
                }
                match encode_str(m[i].1.as_str()) {
                    None => {
                        return None;
                    },
                    Some(p) => push_piece(&mut out, p),
                }
                proof {
                    assert(mv.take(i + 1).drop_last() =~= mv.take(i as int));
                    assert(mv[i as int] == (m@[i as int].0@, m@[i as int].1@));
                    assert(out@ =~= pre + meta_payload(mv.take(i + 1)));
                }
                i = i + 1;
            }
            proof {
                assert(mv.take(mv.len() as int) =~= mv);
            }
        },
        Value::Auth(a) => {
            out.push(22);
            push_len(&mut out, a.len());
            let ghost av = crate::value::auth_views(a@);
            let ghost pre = out@;
            let mut i: usize = 0;
            while i < a.len()
                invariant
                    i <= a@.len(),
                    av == crate::value::auth_views(a@),
                    av.len() == a@.len(),
                    out@ == pre + auth_payload(av.take(i as int)),
                decreases a@.len() - i,
            {
                let raw = a[i].0.to_vec();
                push_piece(&mut out, raw);
                match encode_u16(a[i].1) {
                    None => {
                        return None;
                    },
                    Some(p) => push_piece(&mut out, p),
                }
                proof {
                    assert(av.take(i + 1).drop_last() =~= av.take(i as int));
                    assert(av[i as int] == (a@[i as int].0@, a@[i as int].1));
                    assert(out@ =~= pre + auth_payload(av.take(i + 1)));
                }
                i = i + 1;
            }
            proof {
                assert(av.take(av.len() as int) =~= av);
            }
        },
        Value::Supply(s) => {
            out.push(23);
            match s {
                None => {
                    out.push(0);
                    proof {
                        assert(out@ =~= value_bytes(v@));
                    }
                },
                Some(crate::resource::NewSupply::Fungible { amount }) => {
                    out.push(1);
                    match encode_i128(amount.attos()) {
                        None => {
                            return None;
                        },
                        Some(p) => push_piece(&mut out, p),
                    }
                },
                Some(crate::resource::NewSupply::NonFungible { entries }) => {
                    out.push(2);
                    push_len(&mut out, entries.len());
                    let ghost ev = Seq::new(
                        entries@.len(),
                        |i: int| (entries@[i].0, entries@[i].1@),
                    );
                    let ghost pre = out@;
                    let mut i: usize = 0;
                    while i < entries.len()
                        invariant
                            i <= entries@.len(),
                            ev == Seq::new(
                                entries@.len(),
                                |k: int| (entries@[k].0, entries@[k].1@),
                            ),
                            ev.len() == entries@.len(),
                            out@ == pre + entries_payload(ev.take(i as int)),
                        decreases entries@.len() - i,
                    {
                        match encode_u128(entries[i].0) {
                            None => {
                                return None;
                            },
                            Some(p) => push_piece(&mut out, p),
                        }
                        push_len(&mut out, entries[i].1.len());
                        let raw = crate::resource::copy_bytes(&entries[i].1);
                        push_piece(&mut out, raw);
                        proof {
                            assert(ev.take(i + 1).drop_last() =~= ev.take(i as int));
                            assert(ev[i as int] == (entries@[i as int].0, entries@[i as int].1@));
                            assert(out@ =~= pre + entries_payload(ev.take(i + 1)));
                        }
                        i = i + 1;
                    }
                    proof {
                        assert(ev.take(ev.len() as int) =~= ev);
                        assert(v@->Supply_0->Some_0->NonFungible_entries =~= ev);
                    }
                },
            }
        },
    }
    proof {
        assert(out@ =~= value_bytes(v@));
    }
    Some(out)
}

} // verus!
