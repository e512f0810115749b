//! Resource-creation parameter shapes: resource kinds, lifecycle flags,
//! badge permissions, and initial supplies.

use vstd::prelude::*;
use crate::decimal::Decimal;

verus! {

/// The lifecycle flag granting minting.
pub const MINTABLE: u16 = 1;

/// The lifecycle flag granting burning.
pub const BURNABLE: u16 = 2;

/// The badge permission to mint.
pub const MAY_MINT: u16 = 1;

/// The badge permission to burn.
pub const MAY_BURN: u16 = 2;

/// The kind of a resource: fungible with a fixed divisibility, or
/// non-fungible.
#[derive(Clone, Copy, PartialEq, Eq, Structural, Debug)]
pub enum ResourceType {
    Fungible { divisibility: u8 },
    NonFungible,
}

/// An initial supply: a fungible amount, or non-fungible entries mapping
/// each id to its serialized immutable data.
#[derive(Clone, PartialEq, Eq, Debug)]
pub enum NewSupply {
    Fungible { amount: Decimal },
    NonFungible { entries: Vec<(u128, Vec<u8>)> },
}

pub ghost enum NewSupplyV {
    Fungible { amount: int },
    NonFungible { entries: Seq<(u128, Seq<u8>)> },
}

impl View for NewSupply {
    type V = NewSupplyV;

    open spec fn view(&self) -> NewSupplyV {
        match self {
            NewSupply::Fungible { amount } => NewSupplyV::Fungible { amount: amount@ },
            NewSupply::NonFungible { entries } => NewSupplyV::NonFungible {
                entries: Seq::new(entries@.len(), |i: int| (entries@[i].0, entries@[i].1@)),
            },
        }
    }
}

impl NewSupply {
    /// A value-preserving copy.
    pub fn duplicate(&self) -> (r: NewSupply)
        ensures
            r@ == self@,
    {
        match self {
            NewSupply::Fungible { amount } => NewSupply::Fungible { amount: *amount },
            NewSupply::NonFungible { entries } => {
                let mut out: Vec<(u128, Vec<u8>)> = Vec::new();
                let mut i: usize = 0;
                while i < entries.len()
                    invariant
                        i <= entries@.len(),
                        out@.len() == i,
                        forall|k: int|
                            0 <= k < i ==> #[trigger] out@[k].0 == entries@[k].0 && out@[k].1@
                                == entries@[k].1@,
                    decreases entries@.len() - i,
                {
                    let id = entries[i].0;
                    let data = copy_bytes(&entries[i].1);
                    out.push((id, data));
                    i = i + 1;
                }
                let r = NewSupply::NonFungible { entries: out };
                proof {
                    assert(r@->NonFungible_entries =~= self@->NonFungible_entries);
                }
                r
            },
        }
    }
}

/// A content-preserving copy of a byte vector.
pub fn copy_bytes(v: &Vec<u8>) -> (r: Vec<u8>)
    ensures
        r@ == v@,
{
    let mut out: Vec<u8> = Vec::new();
    let mut i: usize = 0;
    while i < v.len()
        invariant
            i <= v@.len(),
            out@ == v@.take(i as int),
        decreases v@.len() - i,
    {
        out.push(v[i]);
        proof {
            assert(v@.take(i + 1) =~= v@.take(i as int).push(v@[i as int]));
        }
        i = i + 1;
    }
    proof {
        assert(v@.take(v@.len() as int) =~= v@);
    }
    out
}

/// A content-preserving copy of an id vector.
pub fn copy_ids(v: &Vec<u128>) -> (r: Vec<u128>)
    ensures
        r@ == v@,
{
    let mut out: Vec<u128> = Vec::new();
    let mut i: usize = 0;
    while i < v.len()
        invariant
            i <= v@.len(),
            out@ == v@.take(i as int),
        decreases v@.len() - i,
    {
        out.push(v[i]);
        proof {
            assert(v@.take(i + 1) =~= v@.take(i as int).push(v@[i as int]));
        }
        i = i + 1;
    }
    proof {
        assert(v@.take(v@.len() as int) =~= v@);
    }
    out
}

} // verus!
