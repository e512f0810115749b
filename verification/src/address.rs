//! Addresses of packages, components, resources and account keys.

use vstd::prelude::*;
use crate::text::{
    all_hex, hex_of_bytes, hex_pairs_bytes, hex_encode, hex_decode, lemma_hex_roundtrip,
    lemma_hex_pairs_len,
};

verus! {

/// Length in bytes of every address.
pub const ADDRESS_LEN: usize = 26;

/// An address, stored as its raw bytes.  The canonical textual form is the
/// hex string of the bytes, two digits per byte (lower case when formatted;
/// either case accepted when parsed).
#[derive(Clone, Copy, PartialEq, Eq, Hash, Debug)]
pub struct Address {
    bytes: [u8; 26],
}

impl View for Address {
    type V = Seq<u8>;

    closed spec fn view(&self) -> Seq<u8> {
        self.bytes@
    }
}

/// The textual address grammar: exactly two hex digits per address byte.
pub open spec fn parse_address_text(s: Seq<u8>) -> Option<Seq<u8>> {
    if s.len() == 52 && all_hex(s) {
        Some(hex_pairs_bytes(s))
    } else {
        None
    }
}

/// Canonical text of an address value.
pub open spec fn address_text(b: Seq<u8>) -> Seq<u8> {
    hex_of_bytes(b)
}

/// Parsing the canonical text of any address gives the address back.
pub proof fn lemma_address_roundtrip(b: Seq<u8>)
    requires
        b.len() == 26,
    ensures
        parse_address_text(address_text(b)) == Some(b),
{
    lemma_hex_roundtrip(b);
}

impl Address {
    /// Builds an address from raw bytes; `None` unless exactly 26 bytes.
    pub fn from_slice(bytes: &[u8]) -> (r: Option<Address>)
        ensures
            bytes@.len() == 26 ==> r is Some && r.unwrap()@ == bytes@,
            bytes@.len() != 26 ==> r is None,
    {
        if bytes.len() != 26 {
            return None;
        }
        let mut arr = [0u8; 26];
        let mut i: usize = 0;
        while i < 26
            invariant
                i <= 26,
                bytes@.len() == 26,
                arr@.len() == 26,
                forall|j: int| 0 <= j < i ==> arr@[j] == bytes@[j],
            decreases 26 - i,
        {
            arr[i] = bytes[i];
            i = i + 1;
        }
        proof {
            assert(arr@ =~= bytes@);
        }
        Some(Address { bytes: arr })
    }

    /// Parses the textual address grammar.
    pub fn from_text(s: &[u8]) -> (r: Option<Address>)
        ensures
            match parse_address_text(s@) {
                Some(b) => r is Some && r.unwrap()@ == b,
                None => r is None,
            },
    {
        if s.len() != 52 {
            return None;
        }
        match hex_decode(s) {
            None => None,
            Some(v) => {
                proof {
                    lemma_hex_pairs_len(s@);
                }
                Self::from_slice(v.as_slice())
            },
        }
    }

    /// Canonical lower-case hex text.
    pub fn to_text(&self) -> (r: Vec<u8>)
        ensures
            r@ == address_text(self@),
    {
        hex_encode(self.bytes.as_slice())
    }

    /// The raw bytes.
    pub fn to_vec(&self) -> (r: Vec<u8>)
        ensures
            r@ == self@,
    {
        vstd::slice::slice_to_vec(self.bytes.as_slice())
    }

    /// Byte-wise equality usable in verified code.
    pub fn matches(&self, other: &Address) -> (r: bool)
        ensures
            r == (self@ == other@),
    {
        let mut i: usize = 0;
        while i < 26
            invariant
                i <= 26,
                forall|j: int| 0 <= j < i ==> self@[j] == other@[j],
            decreases 26 - i,
        {
            if self.bytes[i] != other.bytes[i] {
                return false;
            }
            i = i + 1;
        }
        proof {
            assert(self@ =~= other@);
        }
        true
    }
}

/// Bytes of the built-in system package address.
pub open spec fn system_package_bytes() -> Seq<u8> {
    Seq::new(26, |i: int| if i == 0 { 1u8 } else { 0u8 })
}

/// Bytes of the built-in account package address.
pub open spec fn account_package_bytes() -> Seq<u8> {
    Seq::new(26, |i: int| if i == 0 { 3u8 } else { 0u8 })
}

/// The fixed address of the system package, home of the built-in blueprint
/// that publishes packages, creates and mints resources.
pub fn system_package() -> (a: Address)
    ensures
        a@ == system_package_bytes(),
{
    let mut arr = [0u8; 26];
    arr[0] = 1;
    proof {
        assert(arr@ =~= system_package_bytes());
    }
    Address { bytes: arr }
}

/// The fixed address of the account package, home of the built-in account
/// blueprint.
pub fn account_package() -> (a: Address)
    ensures
        a@ == account_package_bytes(),
{
    let mut arr = [0u8; 26];
    arr[0] = 3;
    proof {
        assert(arr@ =~= account_package_bytes());
    }
    Address { bytes: arr }
}

} // verus!
