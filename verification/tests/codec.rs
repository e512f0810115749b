//! Serialization of values: each payload must be the byte string the
//! sbor codec produces for the underlying primitive, behind the one-byte
//! shape tag.

use tx_builder::address::Address;
use tx_builder::big_decimal::BigDecimal;
use tx_builder::codec::encode_value;
use tx_builder::decimal::Decimal;
use tx_builder::hash::H256;
use tx_builder::resource::{NewSupply, ResourceType};
use tx_builder::value::Value;

const TOKEN: &str = "0300000000000000000000000000000000000000000000000001";

fn payload(v: &Value) -> (u8, Vec<u8>) {
    let b = encode_value(v).unwrap();
    (b[0], b[1..].to_vec())
}

#[test]
fn primitive_payloads_match_the_codec() {
    assert_eq!(payload(&Value::Bool(true)), (0, sbor::basic_encode(&true).unwrap()));
    assert_eq!(payload(&Value::I8(-5)), (1, sbor::basic_encode(&-5i8).unwrap()));
    assert_eq!(payload(&Value::I16(-6)), (2, sbor::basic_encode(&-6i16).unwrap()));
    assert_eq!(payload(&Value::I32(-7)), (3, sbor::basic_encode(&-7i32).unwrap()));
    assert_eq!(payload(&Value::I64(-8)), (4, sbor::basic_encode(&-8i64).unwrap()));
    assert_eq!(payload(&Value::I128(-9)), (5, sbor::basic_encode(&-9i128).unwrap()));
    assert_eq!(payload(&Value::U8(5)), (6, sbor::basic_encode(&5u8).unwrap()));
    assert_eq!(payload(&Value::U16(6)), (7, sbor::basic_encode(&6u16).unwrap()));
    assert_eq!(payload(&Value::U32(7)), (8, sbor::basic_encode(&7u32).unwrap()));
    assert_eq!(payload(&Value::U64(8)), (9, sbor::basic_encode(&8u64).unwrap()));
    assert_eq!(payload(&Value::U128(9)), (10, sbor::basic_encode(&9u128).unwrap()));
    assert_eq!(
        payload(&Value::Str("hi".to_string())),
        (11, sbor::basic_encode("hi").unwrap())
    );
}

#[test]
fn decimal_payload_is_the_atto_count() {
    let d = Decimal::from_units(3);
    assert_eq!(
        payload(&Value::Dec(d)),
        (12, sbor::basic_encode(&3_000_000_000_000_000_000i128).unwrap())
    );
}

#[test]
fn container_references_encode_their_ids() {
    assert_eq!(payload(&Value::Bucket(4)), (16, sbor::basic_encode(&4u64).unwrap()));
    assert_eq!(payload(&Value::BucketRef(2)), (17, sbor::basic_encode(&2u64).unwrap()));
}

#[test]
fn blob_payload_matches_the_codec() {
    assert_eq!(
        payload(&Value::Blob(vec![9, 8, 7])),
        (18, sbor::basic_encode(&[9u8, 8, 7][..]).unwrap())
    );
}

#[test]
fn address_and_hash_carry_raw_bytes() {
    let a = Address::from_text(TOKEN.as_bytes()).unwrap();
    let (tag, body) = payload(&Value::Addr(a));
    assert_eq!(tag, 14);
    assert_eq!(body.len(), 26);
    assert_eq!(body[0], 3);
    let h = H256::from_text(
        "00112233445566778899aabbccddeeff00112233445566778899aabbccddeeff".as_bytes(),
    )
    .unwrap();
    let (tag, body) = payload(&Value::Hash(h));
    assert_eq!(tag, 15);
    assert_eq!(body.len(), 32);
}

#[test]
fn id_list_payload_concatenates_encoded_ids() {
    let (tag, body) = payload(&Value::NftIds(vec![1, 2]));
    assert_eq!(tag, 19);
    let mut expected = vec![2, 0, 0, 0, 0, 0, 0, 0];
    expected.extend(sbor::basic_encode(&1u128).unwrap());
    expected.extend(sbor::basic_encode(&2u128).unwrap());
    assert_eq!(body, expected);
}

#[test]
fn compound_shapes_encode() {
    let big = BigDecimal::parse(b"-1.5").unwrap();
    let (tag, body) = payload(&Value::BigDec(big));
    assert_eq!(tag, 13);
    assert_eq!(body[0], 1);
    let rt = payload(&Value::Resource(ResourceType::Fungible { divisibility: 18 }));
    assert_eq!(rt, (20, vec![0, 18]));
    let meta = Value::Meta(vec![("k".to_string(), "v".to_string())]);
    let (tag, body) = payload(&meta);
    assert_eq!(tag, 21);
    let mut expected = vec![1, 0, 0, 0, 0, 0, 0, 0];
    expected.extend(sbor::basic_encode("k").unwrap());
    expected.extend(sbor::basic_encode("v").unwrap());
    assert_eq!(body, expected);
    let auth = Value::Auth(vec![(Address::from_text(TOKEN.as_bytes()).unwrap(), 3u16)]);
    let (tag, body) = payload(&auth);
    assert_eq!(tag, 22);
    assert_eq!(body.len(), 8 + 26 + sbor::basic_encode(&3u16).unwrap().len());
    assert_eq!(payload(&Value::Supply(None)), (23, vec![0]));
    let supply = Value::Supply(Some(NewSupply::Fungible { amount: Decimal::from_units(1) }));
    let (tag, body) = payload(&supply);
    assert_eq!(tag, 23);
    assert_eq!(body[0], 1);
    assert_eq!(
        body[1..].to_vec(),
        sbor::basic_encode(&1_000_000_000_000_000_000i128).unwrap()
    );
}
