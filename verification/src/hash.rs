//! 256-bit hashes, as they appear among argument kinds.

use vstd::prelude::*;
use crate::text::{all_hex, hex_of_bytes, hex_pairs_bytes, hex_encode, hex_decode, lemma_hex_pairs_len};

verus! {

/// A 256-bit hash value; textual form is the 64-digit hex string.
#[derive(Clone, Copy, PartialEq, Eq, Hash, Debug)]
pub struct H256 {
    bytes: [u8; 32],
}

impl View for H256 {
    type V = Seq<u8>;

    closed spec fn view(&self) -> Seq<u8> {
        self.bytes@
    }
}

/// The textual hash grammar: exactly two hex digits per hash byte.
pub open spec fn parse_hash_text(s: Seq<u8>) -> Option<Seq<u8>> {
    if s.len() == 64 && all_hex(s) {
        Some(hex_pairs_bytes(s))
    } else {
        None
    }
}

impl H256 {
    /// Builds a hash from raw bytes; `None` unless exactly 32 bytes.
    pub fn from_slice(bytes: &[u8]) -> (r: Option<H256>)
        ensures
            bytes@.len() == 32 ==> r is Some && r.unwrap()@ == bytes@,
            bytes@.len() != 32 ==> r is None,
    {
        if bytes.len() != 32 {
            return None;
        }
        let mut arr = [0u8; 32];
        let mut i: usize = 0;
        while i < 32
            invariant
                i <= 32,
                bytes@.len() == 32,
                arr@.len() == 32,
                forall|j: int| 0 <= j < i ==> arr@[j] == bytes@[j],
            decreases 32 - i,
        {
            arr[i] = bytes[i];
            i = i + 1;
        }
        proof {
            assert(arr@ =~= bytes@);
        }
        Some(H256 { bytes: arr })
    }

    /// Parses the textual hash grammar.
    pub fn from_text(s: &[u8]) -> (r: Option<H256>)
        ensures
            match parse_hash_text(s@) {
                Some(b) => r is Some && r.unwrap()@ == b,
                None => r is None,
            },
    {
        if s.len() != 64 {
            return None;
        }
        match hex_decode(s) {
            None => None,
            Some(v) => {
                proof {
                    lemma_hex_pairs_len(s@);
                }
                Self::from_slice(v.as_slice())
            },
        }
    }

    /// Canonical lower-case hex text.
    pub fn to_text(&self) -> (r: Vec<u8>)
        ensures
            r@ == hex_of_bytes(self@),
    {
        hex_encode(self.bytes.as_slice())
    }

    /// The raw bytes.
    pub fn to_vec(&self) -> (r: Vec<u8>)
        ensures
            r@ == self@,
    {
        vstd::slice::slice_to_vec(self.bytes.as_slice())
    }
}

} // verus!
