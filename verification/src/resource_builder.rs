//! Utility for assembling resource-creation requests: metadata plus a
//! kind, with either a mint authority (mutable supply) or a fixed initial
//! supply — never both.

use vstd::prelude::*;
use crate::address::Address;
use crate::decimal::Decimal;
use crate::resource::{BURNABLE, MAY_BURN, MAY_MINT, MINTABLE, NewSupply, NewSupplyV, ResourceType};
use crate::value::{auth_views, copy_string, meta_views};

verus! {

/// The parameter bundle of one resource creation, in the shape the
/// resource-creation call takes: kind, metadata, lifecycle flags, badge
/// authorities, and the optional fixed initial supply.
pub struct CreateResourceRequest {
    pub resource_type: ResourceType,
    pub metadata: Vec<(String, String)>,
    pub flags: u16,
    pub authorities: Vec<(Address, u16)>,
    pub initial_supply: Option<NewSupply>,
}

pub ghost struct CreateResourceRequestV {
    pub resource_type: ResourceType,
    pub metadata: Seq<(Seq<char>, Seq<char>)>,
    pub flags: u16,
    pub authorities: Seq<(Seq<u8>, u16)>,
    pub initial_supply: Option<NewSupplyV>,
}

impl View for CreateResourceRequest {
    type V = CreateResourceRequestV;

    open spec fn view(&self) -> CreateResourceRequestV {
        CreateResourceRequestV {
            resource_type: self.resource_type,
            metadata: meta_views(self.metadata@),
            flags: self.flags,
            authorities: auth_views(self.authorities@),
            initial_supply: match &self.initial_supply {
                Some(s) => Some(s@),
                None => None,
            },
        }
    }
}

/// Metadata with `key` bound to `value`: an existing binding of the key is
/// overwritten in place, a new key is appended.
pub open spec fn meta_put(
    m: Seq<(Seq<char>, Seq<char>)>,
    key: Seq<char>,
    value: Seq<char>,
) -> Seq<(Seq<char>, Seq<char>)>
    decreases m.len(),
{
    if m.len() == 0 {
        seq![(key, value)]
    } else if m[0].0 == key {
        seq![(key, value)] + m.drop_first()
    } else {
        seq![m[0]] + meta_put(m.drop_first(), key, value)
    }
}

/// Utility for creating a resource.
pub struct ResourceBuilder {
    metadata: Vec<(String, String)>,
}

impl View for ResourceBuilder {
    type V = Seq<(Seq<char>, Seq<char>)>;

    closed spec fn view(&self) -> Seq<(Seq<char>, Seq<char>)> {
        meta_views(self.metadata@)
    }
}

impl ResourceBuilder {
    /// Starts a new builder with empty metadata.
    pub fn new() -> (r: ResourceBuilder)
        ensures
            r@ == Seq::<(Seq<char>, Seq<char>)>::empty(),
    {
        let r = ResourceBuilder { metadata: Vec::new() };
        proof {
            assert(r@ =~= Seq::<(Seq<char>, Seq<char>)>::empty());
        }
        r
    }

    /// Adds a metadata attribute; a duplicate key overwrites its value.
    pub fn metadata(&mut self, name: &str, value: &str)
        requires
            true,
        ensures
            final(self)@ == meta_put(old(self)@, name@, value@),
    {
        let key: String = name.to_owned();
        let val: String = value.to_owned();
        let mut i: usize = 0;
        while i < self.metadata.len()
            invariant
                i <= self.metadata@.len(),
                self.metadata@ == old(self).metadata@,
                key@ == name@,
                val@ == value@,
                forall|k: int| 0 <= k < i ==> #[trigger] self.metadata@[k].0@ != name@,
            decreases self.metadata@.len() - i,
        {
            if self.metadata[i].0 == key {
                proof {
                    assert(old(self)@[i as int].0 == self.metadata@[i as int].0@);
                    assert forall|k: int| 0 <= k < i implies #[trigger] old(self)@[k].0 != name@ by {
                        assert(old(self)@[k].0 == self.metadata@[k].0@);
                    }
                    lemma_meta_put_at(old(self)@, name@, value@, i as int);
                }
                self.metadata.set(i, (key, val));
                proof {
                    assert(final(self)@ =~= old(self)@.update(i as int, (name@, value@)));
                }
                return;
            }
            i = i + 1;
        }
        proof {
            lemma_meta_put_absent(old(self)@, name@, value@);
        }
        self.metadata.push((key, val));
        proof {
            assert(final(self)@ =~= old(self)@.push((name@, value@)));
        }
    }

    /// The metadata gathered so far.
    fn metadata_copy(&self) -> (r: Vec<(String, String)>)
        ensures
            meta_views(r@) == self@,
    {
        let mut out: Vec<(String, String)> = Vec::new();
        let mut i: usize = 0;
        while i < self.metadata.len()
            invariant
                i <= self.metadata@.len(),
                out@.len() == i,
                forall|k: int|
                    0 <= k < i ==> #[trigger] out@[k].0@ == self.metadata@[k].0@ && out@[k].1@
                        == self.metadata@[k].1@,
            decreases self.metadata@.len() - i,
        {
            let key = copy_string(&self.metadata[i].0);
            let val = copy_string(&self.metadata[i].1);
            out.push((key, val));
            proof {
                assert(out@[i as int].0@ == self.metadata@[i as int].0@);
                assert(out@[i as int].1@ == self.metadata@[i as int].1@);
            }
            i = i + 1;
        }
        proof {
            assert(meta_views(out@) =~= self@);
        }
        out
    }

    /// A token resource with mutable supply under the given authorities.
    pub fn new_token_mutable(&self, auth_configs: Vec<(Address, u16)>) -> (r: CreateResourceRequest)
        ensures
            r@.resource_type == (ResourceType::Fungible { divisibility: 18u8 }),
            r@.metadata == self@,
            r@.flags == MINTABLE | BURNABLE,
            r@.authorities == auth_views(auth_configs@),
            r@.initial_supply is None,
    {
        CreateResourceRequest {
            resource_type: ResourceType::Fungible { divisibility: 18 },
            metadata: self.metadata_copy(),
            flags: MINTABLE | BURNABLE,
            authorities: auth_configs,
            initial_supply: None,
        }
    }

    /// A token resource with the given fixed supply and no authorities.
    pub fn new_token_fixed(&self, supply: Decimal) -> (r: CreateResourceRequest)
        ensures
            r@.resource_type == (ResourceType::Fungible { divisibility: 18u8 }),
            r@.metadata == self@,
            r@.flags == 0,
            r@.authorities == Seq::<(Seq<u8>, u16)>::empty(),
            r@.initial_supply == Some(NewSupplyV::Fungible { amount: supply@ }),
    {
        let r = CreateResourceRequest {
            resource_type: ResourceType::Fungible { divisibility: 18 },
            metadata: self.metadata_copy(),
            flags: 0,
            authorities: Vec::new(),
            initial_supply: Some(NewSupply::Fungible { amount: supply }),
        };
        proof {
            assert(r@.authorities =~= Seq::<(Seq<u8>, u16)>::empty());
        }
        r
    }

    /// A badge resource with mutable supply under the given authorities.
    pub fn new_badge_mutable(&self, auth_configs: Vec<(Address, u16)>) -> (r: CreateResourceRequest)
        ensures
            r@.resource_type == (ResourceType::Fungible { divisibility: 0u8 }),
            r@.metadata == self@,
            r@.flags == MINTABLE | BURNABLE,
            r@.authorities == auth_views(auth_configs@),
            r@.initial_supply is None,
    {
        CreateResourceRequest {
            resource_type: ResourceType::Fungible { divisibility: 0 },
            metadata: self.metadata_copy(),
            flags: MINTABLE | BURNABLE,
            authorities: auth_configs,
            initial_supply: None,
        }
    }

    /// A badge resource with the given fixed supply.
    pub fn new_badge_fixed(&self, supply: Decimal) -> (r: CreateResourceRequest)
        ensures
            r@.resource_type == (ResourceType::Fungible { divisibility: 0u8 }),
            r@.metadata == self@,
            r@.flags == 0,
            r@.authorities == Seq::<(Seq<u8>, u16)>::empty(),
            r@.initial_supply == Some(NewSupplyV::Fungible { amount: supply@ }),
    {
        let r = CreateResourceRequest {
            resource_type: ResourceType::Fungible { divisibility: 0 },
            metadata: self.metadata_copy(),
            flags: 0,
            authorities: Vec::new(),
            initial_supply: Some(NewSupply::Fungible { amount: supply }),
        };
        proof {
            assert(r@.authorities =~= Seq::<(Seq<u8>, u16)>::empty());
        }
        r
    }

    /// A non-fungible resource with mutable supply.
    pub fn new_nft_mutable(&self, auth_configs: Vec<(Address, u16)>) -> (r: CreateResourceRequest)
        ensures
            r@.resource_type == ResourceType::NonFungible,
            r@.metadata == self@,
            r@.flags == MINTABLE | BURNABLE,
            r@.authorities == auth_views(auth_configs@),
            r@.initial_supply is None,
    {
        CreateResourceRequest {
            resource_type: ResourceType::NonFungible,
            metadata: self.metadata_copy(),
            flags: MINTABLE | BURNABLE,
            authorities: auth_configs,
            initial_supply: None,
        }
    }

    /// A non-fungible resource with a fixed set of units, each id bound
    /// to its serialized immutable data.
    pub fn new_nft_fixed(&self, supply: Vec<(u128, Vec<u8>)>) -> (r: CreateResourceRequest)
        ensures
            r@.resource_type == ResourceType::NonFungible,
            r@.metadata == self@,
            r@.flags == 0,
            r@.authorities == Seq::<(Seq<u8>, u16)>::empty(),
            ({
                let e = Seq::new(supply@.len(), |i: int| (supply@[i].0, supply@[i].1@));
                r@.initial_supply == Some(NewSupplyV::NonFungible { entries: e })
            }),
    {
        let ghost e = Seq::new(supply@.len(), |i: int| (supply@[i].0, supply@[i].1@));
        let r = CreateResourceRequest {
            resource_type: ResourceType::NonFungible,
            metadata: self.metadata_copy(),
            flags: 0,
            authorities: Vec::new(),
            initial_supply: Some(NewSupply::NonFungible { entries: supply }),
        };
        proof {
            assert(r@.authorities =~= Seq::<(Seq<u8>, u16)>::empty());
            assert(r@.initial_supply->Some_0->NonFungible_entries =~= e);
        }
        r
    }
}

impl Default for ResourceBuilder {
    fn default() -> (r: ResourceBuilder)
        ensures
            r@ == Seq::<(Seq<char>, Seq<char>)>::empty(),
    {
        ResourceBuilder::new()
    }
}

/// Overwriting the first binding of a present key updates it in place.
proof fn lemma_meta_put_at(
    m: Seq<(Seq<char>, Seq<char>)>,
    key: Seq<char>,
    value: Seq<char>,
    idx: int,
)
    requires
        0 <= idx < m.len(),
        m[idx].0 == key,
        forall|k: int| 0 <= k < idx ==> #[trigger] m[k].0 != key,
    ensures
        meta_put(m, key, value) == m.update(idx, (key, value)),
    decreases idx,
{
    if idx == 0 {
        assert(seq![(key, value)] + m.drop_first() =~= m.update(0, (key, value)));
    } else {
        assert(m[0].0 != key);
        let m1 = m.drop_first();
        assert(forall|k: int| 0 <= k < m1.len() ==> #[trigger] m1[k] == m[k + 1]);
        lemma_meta_put_at(m1, key, value, idx - 1);
        assert(seq![m[0]] + m1.update(idx - 1, (key, value)) =~= m.update(idx, (key, value)));
    }
}

/// Binding an absent key appends it.
proof fn lemma_meta_put_absent(m: Seq<(Seq<char>, Seq<char>)>, key: Seq<char>, value: Seq<char>)
    requires
        forall|k: int| 0 <= k < m.len() ==> #[trigger] m[k].0 != key,
    ensures
        meta_put(m, key, value) == m.push((key, value)),
    decreases m.len(),
{
    if m.len() == 0 {
        assert(meta_put(m, key, value) =~= m.push((key, value)));
    } else {
        let m1 = m.drop_first();
        assert(forall|k: int| 0 <= k < m1.len() ==> #[trigger] m1[k] == m[k + 1]);
        lemma_meta_put_absent(m1, key, value);
        assert(seq![m[0]] + m1.push((key, value)) =~= m.push((key, value)));
    }
}

} // verus!
