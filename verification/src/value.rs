//! Engine-ready argument values: the closed set of shapes an instruction
//! argument can take after coercion.

use vstd::prelude::*;
use crate::address::Address;
use crate::big_decimal::{BigDecimal, BigDecimalV};
use crate::decimal::Decimal;
use crate::hash::H256;
use crate::resource::{NewSupply, NewSupplyV, ResourceType, copy_bytes, copy_ids};

verus! {

/// An engine-ready value: a parsed primitive, a parsed custom value, or a
/// forward reference to a declared container.
#[derive(Debug, PartialEq, Eq)]
pub enum Value {
    Bool(bool),
    I8(i8),
    I16(i16),
    I32(i32),
    I64(i64),
    I128(i128),
    U8(u8),
    U16(u16),
    U32(u32),
    U64(u64),
    U128(u128),
    Str(String),
    Dec(Decimal),
    BigDec(BigDecimal),
    Addr(Address),
    Hash(H256),
    Bucket(usize),
    BucketRef(usize),
    Blob(Vec<u8>),
    NftIds(Vec<u128>),
    Resource(ResourceType),
    Meta(Vec<(String, String)>),
    Auth(Vec<(Address, u16)>),
    Supply(Option<NewSupply>),
}

/// Mathematical content of a `Value`.
pub ghost enum ValueV {
    Bool(bool),
    I8(i8),
    I16(i16),
    I32(i32),
    I64(i64),
    I128(i128),
    U8(u8),
    U16(u16),
    U32(u32),
    U64(u64),
    U128(u128),
    Str(Seq<char>),
    Dec(int),
    BigDec(BigDecimalV),
    Addr(Seq<u8>),
    Hash(Seq<u8>),
    Bucket(int),
    BucketRef(int),
    Blob(Seq<u8>),
    NftIds(Seq<u128>),
    Resource(ResourceType),
    Meta(Seq<(Seq<char>, Seq<char>)>),
    Auth(Seq<(Seq<u8>, u16)>),
    Supply(Option<NewSupplyV>),
}

impl View for Value {
    type V = ValueV;

    open spec fn view(&self) -> ValueV {
        match self {
            Value::Bool(b) => ValueV::Bool(*b),
            Value::I8(v) => ValueV::I8(*v),
            Value::I16(v) => ValueV::I16(*v),
            Value::I32(v) => ValueV::I32(*v),
            Value::I64(v) => ValueV::I64(*v),
            Value::I128(v) => ValueV::I128(*v),
            Value::U8(v) => ValueV::U8(*v),
            Value::U16(v) => ValueV::U16(*v),
            Value::U32(v) => ValueV::U32(*v),
            Value::U64(v) => ValueV::U64(*v),
            Value::U128(v) => ValueV::U128(*v),
            Value::Str(s) => ValueV::Str(s@),
            Value::Dec(d) => ValueV::Dec(d@),
            Value::BigDec(d) => ValueV::BigDec(d@),
            Value::Addr(a) => ValueV::Addr(a@),
            Value::Hash(h) => ValueV::Hash(h@),
            Value::Bucket(n) => ValueV::Bucket(*n as int),
            Value::BucketRef(n) => ValueV::BucketRef(*n as int),
            Value::Blob(b) => ValueV::Blob(b@),
            Value::NftIds(ids) => ValueV::NftIds(ids@),
            Value::Resource(t) => ValueV::Resource(*t),
            Value::Meta(m) => ValueV::Meta(Seq::new(m@.len(), |i: int| (m@[i].0@, m@[i].1@))),
            Value::Auth(a) => ValueV::Auth(Seq::new(a@.len(), |i: int| (a@[i].0@, a@[i].1))),
            Value::Supply(s) => ValueV::Supply(
                match s {
                    Some(v) => Some(v@),
                    None => None,
                },
            ),
        }
    }
}

/// A content-preserving copy of a string.
pub fn copy_string(s: &String) -> (r: String)
    ensures
        r@ == s@,
{
    s.clone()
}

impl Value {
    /// A value-preserving copy.
    pub fn duplicate(&self) -> (r: Value)
        ensures
            r@ == self@,
    {
        match self {
            Value::Bool(b) => Value::Bool(*b),
            Value::I8(v) => Value::I8(*v),
            Value::I16(v) => Value::I16(*v),
            Value::I32(v) => Value::I32(*v),
            Value::I64(v) => Value::I64(*v),
            Value::I128(v) => Value::I128(*v),
            Value::U8(v) => Value::U8(*v),
            Value::U16(v) => Value::U16(*v),
            Value::U32(v) => Value::U32(*v),
            Value::U64(v) => Value::U64(*v),
            Value::U128(v) => Value::U128(*v),
            Value::Str(s) => Value::Str(copy_string(s)),
            Value::Dec(d) => Value::Dec(*d),
            Value::BigDec(d) => Value::BigDec(d.duplicate()),
            Value::Addr(a) => Value::Addr(*a),
            Value::Hash(h) => Value::Hash(*h),
            Value::Bucket(n) => Value::Bucket(*n),
            Value::BucketRef(n) => Value::BucketRef(*n),
            Value::Blob(b) => Value::Blob(copy_bytes(b)),
            Value::NftIds(ids) => Value::NftIds(copy_ids(ids)),
            Value::Resource(t) => Value::Resource(*t),
            Value::Meta(m) => {
                let mut out: Vec<(String, String)> = Vec::new();
                let mut i: usize = 0;
                while i < m.len()
                    invariant
                        i <= m@.len(),
                        out@.len() == i,
                        forall|k: int|
                            0 <= k < i ==> #[trigger] out@[k].0@ == m@[k].0@ && out@[k].1@
                                == m@[k].1@,
                    decreases m@.len() - i,
                {
                    let key = copy_string(&m[i].0);
                    let val = copy_string(&m[i].1);
                    out.push((key, val));
                    i = i + 1;
                }
                let r = Value::Meta(out);
                proof {
                    assert(r@->Meta_0 =~= self@->Meta_0);
                }
                r
            },
            Value::Auth(a) => {
                let mut out: Vec<(Address, u16)> = Vec::new();
                let mut i: usize = 0;
                while i < a.len()
                    invariant
                        i <= a@.len(),
                        out@.len() == i,
                        forall|k: int|
                            0 <= k < i ==> #[trigger] out@[k].0@ == a@[k].0@ && out@[k].1
                                == a@[k].1,
                    decreases a@.len() - i,
                {
                    out.push((a[i].0, a[i].1));
                    i = i + 1;
                }
                let r = Value::Auth(out);
                proof {
                    assert(r@->Auth_0 =~= self@->Auth_0);
                }
                r
            },
            Value::Supply(s) => Value::Supply(
                match s {
                    Some(v) => Some(v.duplicate()),
                    None => None,
                },
            ),
        }
    }
}

/// A value-preserving copy of an argument list.
pub fn copy_values(vals: &Vec<Value>) -> (r: Vec<Value>)
    ensures
        r@.len() == vals@.len(),
        forall|i: int| 0 <= i < vals@.len() ==> #[trigger] r@[i]@ == vals@[i]@,
{
    let mut out: Vec<Value> = Vec::new();
    let mut i: usize = 0;
    while i < vals.len()
        invariant
            i <= vals@.len(),
            out@.len() == i,
            forall|k: int| 0 <= k < i ==> #[trigger] out@[k]@ == vals@[k]@,
        decreases vals@.len() - i,
    {
        let v = vals[i].duplicate();
        out.push(v);
        i = i + 1;
    }
    out
}


/// The views of an argument list.
pub open spec fn value_views(s: Seq<Value>) -> Seq<ValueV> {
    Seq::new(s.len(), |i: int| s[i]@)
}

/// The views of a metadata list.
pub open spec fn meta_views(m: Seq<(String, String)>) -> Seq<(Seq<char>, Seq<char>)> {
    Seq::new(m.len(), |i: int| (m[i].0@, m[i].1@))
}

/// The views of an authority list.
pub open spec fn auth_views(a: Seq<(Address, u16)>) -> Seq<(Seq<u8>, u16)> {
    Seq::new(a.len(), |i: int| (a[i].0@, a[i].1))
}
} // verus!
