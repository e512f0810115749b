//! The resource amount grammar: decimals, addresses, ids, and the
//! round trips of the canonical textual forms.

use tx_builder::address::Address;
use tx_builder::amount::{ParseResourceAmountError, ResourceAmount};
use tx_builder::big_decimal::BigDecimal;
use tx_builder::decimal::Decimal;
use tx_builder::hash::H256;

const TOKEN: &str = "0300000000000000000000000000000000000000000000000001";

fn token_address() -> Address {
    Address::from_text(TOKEN.as_bytes()).unwrap()
}

#[test]
fn decimal_parses_whole_and_fractional() {
    assert_eq!(Decimal::parse(b"5").unwrap().attos(), 5_000_000_000_000_000_000);
    assert_eq!(Decimal::parse(b"5.5").unwrap().attos(), 5_500_000_000_000_000_000);
    assert_eq!(Decimal::parse(b"-0.000000000000000001").unwrap().attos(), -1);
    assert_eq!(Decimal::parse(b"+2.25").unwrap().attos(), 2_250_000_000_000_000_000);
    assert_eq!(Decimal::parse(b"0").unwrap().attos(), 0);
}

#[test]
fn decimal_rejects_bad_forms() {
    assert!(Decimal::parse(b"").is_none());
    assert!(Decimal::parse(b"5.").is_none());
    assert!(Decimal::parse(b".5").is_none());
    assert!(Decimal::parse(b"1.2.3").is_none());
    assert!(Decimal::parse(b"abc").is_none());
    // nineteen fraction digits: one more than the precision
    assert!(Decimal::parse(b"0.0000000000000000001").is_none());
    // beyond the representable whole range
    assert!(Decimal::parse(b"170141183460469231732").is_none());
}

#[test]
fn decimal_formats_canonically() {
    assert_eq!(Decimal::from_attos(1_500_000_000_000_000_000).to_text(), b"1.5".to_vec());
    assert_eq!(Decimal::from_attos(0).to_text(), b"0".to_vec());
    assert_eq!(Decimal::from_attos(-1).to_text(), b"-0.000000000000000001".to_vec());
    assert_eq!(Decimal::from_units(10).to_text(), b"10".to_vec());
}

#[test]
fn decimal_text_round_trips() {
    for attos in [0i128, 1, -1, 7, 10i128.pow(18), -3 * 10i128.pow(17), i128::MAX, i128::MIN] {
        let d = Decimal::from_attos(attos);
        let text = d.to_text();
        let back = Decimal::parse(&text).unwrap();
        assert_eq!(back.attos(), attos);
    }
}

#[test]
fn address_text_round_trips() {
    let a = token_address();
    let text = a.to_text();
    assert_eq!(text.len(), 52);
    let b = Address::from_text(&text).unwrap();
    assert_eq!(a, b);
}

#[test]
fn address_rejects_bad_text() {
    assert!(Address::from_text(b"bad_address").is_none());
    assert!(Address::from_text(b"03").is_none());
    let mut long = TOKEN.as_bytes().to_vec();
    long.push(b'0');
    assert!(Address::from_text(&long).is_none());
    assert!(Address::from_text(b"zz00000000000000000000000000000000000000000000000001").is_none());
}

#[test]
fn hash_parses_and_round_trips() {
    let text = "00112233445566778899aabbccddeeff00112233445566778899aabbccddeeff";
    let h = H256::from_text(text.as_bytes()).unwrap();
    assert_eq!(h.to_text(), text.as_bytes().to_vec());
    assert!(H256::from_text(b"0011").is_none());
}

#[test]
fn fungible_amount_parses() {
    let spec = format!("5,{}", TOKEN);
    let ra = ResourceAmount::from_str(&spec).unwrap();
    match &ra {
        ResourceAmount::Fungible { amount, resource_address } => {
            assert_eq!(amount.attos(), 5_000_000_000_000_000_000);
            assert_eq!(*resource_address, token_address());
        },
        _ => panic!("expected a fungible amount"),
    }
    assert_eq!(ra.amount(), Decimal::from_units(5));
    assert_eq!(ra.resource_address(), token_address());
}

#[test]
fn fungible_amount_trims_whitespace() {
    let spec = format!("  5,{}\n", TOKEN);
    assert!(ResourceAmount::from_str(&spec).is_ok());
}

#[test]
fn non_fungible_amount_collects_sorted_unique_ids() {
    let spec = format!("#3,#1,#2,#1,{}", TOKEN);
    let ra = ResourceAmount::from_str(&spec).unwrap();
    match &ra {
        ResourceAmount::NonFungible { ids, resource_address } => {
            assert_eq!(ids, &vec![1u128, 2, 3]);
            assert_eq!(*resource_address, token_address());
        },
        _ => panic!("expected a non-fungible amount"),
    }
    assert_eq!(ra.amount(), Decimal::from_units(3));
}

#[test]
fn fungible_text_round_trips() {
    // the canonical fungible form: "{amount},{address}"
    let amount = Decimal::from_attos(2_500_000_000_000_000_000);
    let mut text = amount.to_text();
    text.push(b',');
    text.extend_from_slice(&token_address().to_text());
    let spec = String::from_utf8(text).unwrap();
    let ra = ResourceAmount::from_str(&spec).unwrap();
    match ra {
        ResourceAmount::Fungible { amount: a, resource_address } => {
            assert_eq!(a, amount);
            assert_eq!(resource_address, token_address());
        },
        _ => panic!("expected a fungible amount"),
    }
}

#[test]
fn non_fungible_text_round_trips() {
    // the canonical non-fungible form: "#i1,...,#ik,{address}"
    let spec = format!("#1,#2,#40,{}", TOKEN);
    let ra = ResourceAmount::from_str(&spec).unwrap();
    match ra {
        ResourceAmount::NonFungible { ids, resource_address } => {
            assert_eq!(ids, vec![1u128, 2, 40]);
            assert_eq!(resource_address, token_address());
        },
        _ => panic!("expected a non-fungible amount"),
    }
}

#[test]
fn grammar_rejections() {
    assert_eq!(
        ResourceAmount::from_str("abc").unwrap_err(),
        ParseResourceAmountError::MissingResourceAddress
    );
    assert_eq!(
        ResourceAmount::from_str("1,2,bad_address").unwrap_err(),
        ParseResourceAmountError::InvalidResourceAddress
    );
    let mixed = format!("#1,2,{}", TOKEN);
    assert_eq!(
        ResourceAmount::from_str(&mixed).unwrap_err(),
        ParseResourceAmountError::InvalidNftId
    );
    let four = format!("1,2,3,{}", TOKEN);
    assert_eq!(
        ResourceAmount::from_str(&four).unwrap_err(),
        ParseResourceAmountError::InvalidAmount
    );
    let bad_id = format!("#x,{}", TOKEN);
    assert_eq!(
        ResourceAmount::from_str(&bad_id).unwrap_err(),
        ParseResourceAmountError::InvalidNftId
    );
    let bad_amount = format!("x,{}", TOKEN);
    assert_eq!(
        ResourceAmount::from_str(&bad_amount).unwrap_err(),
        ParseResourceAmountError::InvalidAmount
    );
}

#[test]
fn big_decimal_normalizes() {
    let d = BigDecimal::parse(b"-0012.3400").unwrap();
    assert!(d.is_negative());
    assert_eq!(d.unit_digits(), &b"12".to_vec());
    assert_eq!(d.frac_digits(), &b"34".to_vec());
    // zero never keeps its sign
    let z = BigDecimal::parse(b"-0.000").unwrap();
    assert!(!z.is_negative());
    assert_eq!(z.unit_digits(), &b"0".to_vec());
    assert_eq!(z.frac_digits(), &b"".to_vec());
    // no fraction-length cap
    let long = BigDecimal::parse(b"1.0000000000000000000000000000001").unwrap();
    assert_eq!(long.frac_digits().len(), 31);
    assert!(BigDecimal::parse(b"1.").is_none());
    assert!(BigDecimal::parse(b"x").is_none());
}

#[test]
fn integer_text_parses_like_the_primitive_grammars() {
    assert_eq!(tx_builder::text::parse_u128(b"+12"), Some(12));
    assert_eq!(tx_builder::text::parse_u128(b"0"), Some(0));
    assert_eq!(tx_builder::text::parse_u128(b""), None);
    assert_eq!(tx_builder::text::parse_u128(b"+"), None);
    assert_eq!(tx_builder::text::parse_u128(b"-1"), None);
    assert_eq!(tx_builder::text::parse_u128(b"340282366920938463463374607431768211455"), Some(u128::MAX));
    assert_eq!(tx_builder::text::parse_u128(b"340282366920938463463374607431768211456"), None);
    assert_eq!(tx_builder::text::parse_i128(b"-170141183460469231731687303715884105728"), Some(i128::MIN));
    assert_eq!(tx_builder::text::parse_i128(b"-170141183460469231731687303715884105729"), None);
    assert_eq!(tx_builder::text::parse_i128(b"170141183460469231731687303715884105727"), Some(i128::MAX));
    assert_eq!(tx_builder::text::parse_bool(b"true"), Some(true));
    assert_eq!(tx_builder::text::parse_bool(b"false"), Some(false));
    assert_eq!(tx_builder::text::parse_bool(b"True"), None);
}

#[test]
fn canonical_text_of_amounts_round_trips() {
    let fungible = ResourceAmount::from_str(&format!("2.5,{}", TOKEN)).unwrap();
    let text = fungible.to_text();
    assert_eq!(text, format!("2.5,{}", TOKEN).into_bytes());
    assert_eq!(ResourceAmount::from_bytes(&text).unwrap(), fungible);

    let nft = ResourceAmount::from_str(&format!("#9,#4,{}", TOKEN)).unwrap();
    let text = nft.to_text();
    assert_eq!(text, format!("#4,#9,{}", TOKEN).into_bytes());
    assert_eq!(ResourceAmount::from_bytes(&text).unwrap(), nft);
}
