//! Resource-creation requests assembled by the resource builder.

use tx_builder::address::Address;
use tx_builder::decimal::Decimal;
use tx_builder::resource::{NewSupply, ResourceType, BURNABLE, MAY_BURN, MAY_MINT, MINTABLE};
use tx_builder::resource_builder::ResourceBuilder;

const BADGE: &str = "0500000000000000000000000000000000000000000000000009";

#[test]
fn metadata_overwrites_duplicate_keys() {
    let mut b = ResourceBuilder::new();
    b.metadata("name", "one");
    b.metadata("symbol", "ONE");
    b.metadata("name", "two");
    let r = b.new_token_fixed(Decimal::from_units(10));
    assert_eq!(
        r.metadata,
        vec![
            ("name".to_string(), "two".to_string()),
            ("symbol".to_string(), "ONE".to_string()),
        ]
    );
}

#[test]
fn fixed_and_mutable_supplies_are_mutually_exclusive() {
    let badge = Address::from_text(BADGE.as_bytes()).unwrap();
    let mut b = ResourceBuilder::new();
    b.metadata("name", "tok");
    let fixed = b.new_token_fixed(Decimal::from_units(1000));
    assert_eq!(fixed.resource_type, ResourceType::Fungible { divisibility: 18 });
    assert_eq!(fixed.flags, 0);
    assert!(fixed.authorities.is_empty());
    assert_eq!(
        fixed.initial_supply,
        Some(NewSupply::Fungible { amount: Decimal::from_units(1000) })
    );
    let mutable = b.new_token_mutable(vec![(badge, MAY_MINT | MAY_BURN)]);
    assert_eq!(mutable.flags, MINTABLE | BURNABLE);
    assert_eq!(mutable.authorities, vec![(badge, MAY_MINT | MAY_BURN)]);
    assert!(mutable.initial_supply.is_none());
}

#[test]
fn badge_and_nft_kinds() {
    let badge = Address::from_text(BADGE.as_bytes()).unwrap();
    let b = ResourceBuilder::new();
    let fixed_badge = b.new_badge_fixed(Decimal::from_units(1));
    assert_eq!(fixed_badge.resource_type, ResourceType::Fungible { divisibility: 0 });
    let nft_mut = b.new_nft_mutable(vec![(badge, MAY_MINT)]);
    assert_eq!(nft_mut.resource_type, ResourceType::NonFungible);
    assert!(nft_mut.initial_supply.is_none());
    let nft_fixed = b.new_nft_fixed(vec![(1u128, vec![0xAA]), (2u128, vec![0xBB])]);
    assert_eq!(
        nft_fixed.initial_supply,
        Some(NewSupply::NonFungible { entries: vec![(1u128, vec![0xAA]), (2u128, vec![0xBB])] })
    );
    assert_eq!(nft_fixed.flags, 0);
}

#[test]
fn default_builder_is_empty() {
    let b: ResourceBuilder = Default::default();
    let r = b.new_token_fixed(Decimal::from_units(1));
    assert!(r.metadata.is_empty());
}
