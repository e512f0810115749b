//! The transaction builder: identifier allocation, hoisting, argument
//! coercion against declared interfaces, and error accumulation.

use tx_builder::abi::{BasicAbiProvider, Blueprint, Function, Method, Type};
use tx_builder::address::{account_package, system_package, Address};
use tx_builder::amount::ResourceAmount;
use tx_builder::builder::TransactionBuilder;
use tx_builder::decimal::Decimal;
use tx_builder::errors::{BuildArgsError, BuildTransactionError};
use tx_builder::instruction::Instruction;
use tx_builder::value::Value;

const TOKEN: &str = "0300000000000000000000000000000000000000000000000001";
const PACKAGE: &str = "0100000000000000000000000000000000000000000000000002";
const ACCOUNT: &str = "0400000000000000000000000000000000000000000000000003";

fn addr(s: &str) -> Address {
    Address::from_text(s.as_bytes()).unwrap()
}

fn provider_with(inputs: Vec<Type>) -> BasicAbiProvider {
    let mut p = BasicAbiProvider::new();
    p.add_blueprint(
        addr(PACKAGE),
        "Greeter".to_string(),
        Blueprint {
            functions: vec![Function { name: "greet".to_string(), inputs }],
            methods: vec![],
        },
    );
    p
}

#[test]
fn ids_count_up_per_kind_independently() {
    let p = BasicAbiProvider::new();
    let mut b = TransactionBuilder::new(&p);
    assert_eq!(b.declare_bucket(), 0);
    assert_eq!(b.declare_bucket_ref(), 0);
    assert_eq!(b.declare_bucket(), 1);
    assert_eq!(b.declare_bucket_ref(), 1);
    assert_eq!(b.declare_bucket(), 2);
    assert_eq!(b.declare_bucket_ref(), 2);
}

#[test]
fn build_orders_reservations_before_body_and_ends() {
    let p = BasicAbiProvider::new();
    let mut b = TransactionBuilder::new(&p);
    b.deposit_all_buckets(addr(ACCOUNT));
    let bid = b.declare_bucket();
    b.take_from_context(Decimal::from_units(1), addr(TOKEN), bid);
    let t = b.build(vec![]).unwrap();
    assert_eq!(t.instructions.len(), 4);
    assert_eq!(t.instructions[0], Instruction::DeclareBucket);
    assert_eq!(
        t.instructions[1],
        Instruction::DepositAllBuckets { account: addr(ACCOUNT) }
    );
    assert_eq!(
        t.instructions[2],
        Instruction::TakeFromContext {
            amount: Decimal::from_units(1),
            resource_address: addr(TOKEN),
            to: 0
        }
    );
    assert_eq!(t.instructions[3], Instruction::End { signers: vec![] });
}

#[test]
fn building_twice_gives_an_equivalent_program() {
    let p = BasicAbiProvider::new();
    let mut b = TransactionBuilder::new(&p);
    b.drop_all_bucket_refs();
    let t1 = b.build(vec![addr(ACCOUNT)]).unwrap();
    let t2 = b.build(vec![addr(ACCOUNT)]).unwrap();
    assert_eq!(t1.instructions, t2.instructions);
}

#[test]
fn function_call_coerces_declared_parameters() {
    // P6: a (Decimal, Bucket) function called with ["10", "5,<token>"]
    let p = provider_with(vec![Type::Decimal, Type::Bucket]);
    let mut b = TransactionBuilder::new(&p);
    b.call_function(
        addr(PACKAGE),
        "Greeter",
        "greet",
        vec!["10".to_string(), format!("5,{}", TOKEN)],
        None,
    );
    let t = b.build(vec![]).unwrap();
    assert_eq!(t.instructions.len(), 4);
    assert_eq!(t.instructions[0], Instruction::DeclareBucket);
    assert_eq!(
        t.instructions[1],
        Instruction::TakeFromContext {
            amount: Decimal::from_units(5),
            resource_address: addr(TOKEN),
            to: 0
        }
    );
    assert_eq!(
        t.instructions[2],
        Instruction::CallFunction {
            package_address: addr(PACKAGE),
            blueprint_name: "Greeter".to_string(),
            function: "greet".to_string(),
            args: vec![Value::Dec(Decimal::from_units(10)), Value::Bucket(0)],
        }
    );
    assert_eq!(t.instructions[3], Instruction::End { signers: vec![] });
}

#[test]
fn account_sourced_call_withdraws_first() {
    // P7: the same call with an account adds the withdraw ahead of the fill
    let p = provider_with(vec![Type::Decimal, Type::Bucket]);
    let mut b = TransactionBuilder::new(&p);
    b.call_function(
        addr(PACKAGE),
        "Greeter",
        "greet",
        vec!["10".to_string(), format!("5,{}", TOKEN)],
        Some(addr(ACCOUNT)),
    );
    let t = b.build(vec![]).unwrap();
    assert_eq!(t.instructions.len(), 5);
    assert_eq!(t.instructions[0], Instruction::DeclareBucket);
    assert_eq!(
        t.instructions[1],
        Instruction::CallMethod {
            component_address: addr(ACCOUNT),
            method: "withdraw".to_string(),
            args: vec![Value::Dec(Decimal::from_units(5)), Value::Addr(addr(TOKEN))],
        }
    );
    assert_eq!(
        t.instructions[2],
        Instruction::TakeFromContext {
            amount: Decimal::from_units(5),
            resource_address: addr(TOKEN),
            to: 0
        }
    );
    assert!(matches!(t.instructions[3], Instruction::CallFunction { .. }));
}

#[test]
fn missing_argument_is_detected_with_its_position_and_type() {
    // P5: two declared parameters, one supplied argument
    let p = provider_with(vec![Type::Decimal, Type::Bucket]);
    let mut b = TransactionBuilder::new(&p);
    b.call_function(addr(PACKAGE), "Greeter", "greet", vec!["10".to_string()], None);
    let e = b.build(vec![]).unwrap_err();
    assert_eq!(
        e,
        BuildTransactionError::FailedToBuildArgs(BuildArgsError::MissingArgument(1, Type::Bucket))
    );
}

#[test]
fn first_recorded_error_wins() {
    // P8: two invalid calls; build surfaces the first
    let p = provider_with(vec![]);
    let mut b = TransactionBuilder::new(&p);
    b.call_function(addr(PACKAGE), "Greeter", "nope1", vec![], None);
    b.call_function(addr(PACKAGE), "Greeter", "nope2", vec![], None);
    let e = b.build(vec![]).unwrap_err();
    assert_eq!(e, BuildTransactionError::FunctionNotFound("nope1".to_string()));
}

#[test]
fn unknown_package_fails_the_export() {
    let p = BasicAbiProvider::new();
    let mut b = TransactionBuilder::new(&p);
    b.call_function(addr(PACKAGE), "Greeter", "greet", vec![], None);
    let e = b.build(vec![]).unwrap_err();
    assert_eq!(
        e,
        BuildTransactionError::FailedToExportFunctionAbi(
            addr(PACKAGE),
            "Greeter".to_string(),
            "greet".to_string()
        )
    );
}

#[test]
fn method_calls_resolve_against_the_component() {
    let mut p = BasicAbiProvider::new();
    p.add_component(
        addr(ACCOUNT),
        Blueprint {
            functions: vec![],
            methods: vec![Method { name: "ping".to_string(), inputs: vec![Type::U32] }],
        },
    );
    let mut b = TransactionBuilder::new(&p);
    b.call_method(addr(ACCOUNT), "ping", vec!["7".to_string()], None);
    let t = b.build(vec![]).unwrap();
    assert_eq!(
        t.instructions[0],
        Instruction::CallMethod {
            component_address: addr(ACCOUNT),
            method: "ping".to_string(),
            args: vec![Value::U32(7)],
        }
    );
    let mut b2 = TransactionBuilder::new(&p);
    b2.call_method(addr(ACCOUNT), "pong", vec![], None);
    assert_eq!(
        b2.build(vec![]).unwrap_err(),
        BuildTransactionError::MethodNotFound("pong".to_string())
    );
    let mut b3 = TransactionBuilder::new(&p);
    b3.call_method(addr(TOKEN), "ping", vec![], None);
    assert_eq!(
        b3.build(vec![]).unwrap_err(),
        BuildTransactionError::FailedToExportMethodAbi(addr(TOKEN), "ping".to_string())
    );
}

#[test]
fn unparsable_and_unsupported_arguments_fail() {
    let p = provider_with(vec![Type::U8]);
    let mut b = TransactionBuilder::new(&p);
    b.call_function(addr(PACKAGE), "Greeter", "greet", vec!["256".to_string()], None);
    assert_eq!(
        b.build(vec![]).unwrap_err(),
        BuildTransactionError::FailedToBuildArgs(BuildArgsError::FailedToParse(
            0,
            Type::U8,
            "256".to_string()
        ))
    );
    let p2 = provider_with(vec![Type::Other]);
    let mut b2 = TransactionBuilder::new(&p2);
    b2.call_function(addr(PACKAGE), "Greeter", "greet", vec!["x".to_string()], None);
    assert_eq!(
        b2.build(vec![]).unwrap_err(),
        BuildTransactionError::FailedToBuildArgs(BuildArgsError::UnsupportedType(0, Type::Other))
    );
}

#[test]
fn every_primitive_kind_coerces() {
    let inputs = vec![
        Type::Bool,
        Type::I8,
        Type::I16,
        Type::I32,
        Type::I64,
        Type::I128,
        Type::U8,
        Type::U16,
        Type::U32,
        Type::U64,
        Type::U128,
        Type::Str,
    ];
    let p = provider_with(inputs);
    let mut b = TransactionBuilder::new(&p);
    let args: Vec<String> = vec![
        "true", "-1", "-2", "-3", "-4", "-5", "1", "2", "3", "4", "5", "hello",
    ]
    .into_iter()
    .map(|s| s.to_string())
    .collect();
    b.call_function(addr(PACKAGE), "Greeter", "greet", args, None);
    let t = b.build(vec![]).unwrap();
    match &t.instructions[0] {
        Instruction::CallFunction { args, .. } => {
            assert_eq!(
                args,
                &vec![
                    Value::Bool(true),
                    Value::I8(-1),
                    Value::I16(-2),
                    Value::I32(-3),
                    Value::I64(-4),
                    Value::I128(-5),
                    Value::U8(1),
                    Value::U16(2),
                    Value::U32(3),
                    Value::U64(4),
                    Value::U128(5),
                    Value::Str("hello".to_string()),
                ]
            );
        },
        other => panic!("expected a function call, got {:?}", other),
    }
}

#[test]
fn bucket_ref_parameter_borrows_from_context() {
    let p = provider_with(vec![Type::BucketRef]);
    let mut b = TransactionBuilder::new(&p);
    b.call_function(
        addr(PACKAGE),
        "Greeter",
        "greet",
        vec![format!("1,{}", TOKEN)],
        None,
    );
    let t = b.build(vec![]).unwrap();
    assert_eq!(t.instructions[0], Instruction::DeclareBucketRef);
    assert_eq!(
        t.instructions[1],
        Instruction::BorrowFromContext {
            amount: Decimal::from_units(1),
            resource_address: addr(TOKEN),
            to: 0
        }
    );
    match &t.instructions[2] {
        Instruction::CallFunction { args, .. } => {
            assert_eq!(args, &vec![Value::BucketRef(0)]);
        },
        other => panic!("expected a function call, got {:?}", other),
    }
}

#[test]
fn withdraw_from_account_expands_by_amount_kind() {
    let p = BasicAbiProvider::new();
    let mut b = TransactionBuilder::new(&p);
    let fungible = ResourceAmount::from_str(&format!("2,{}", TOKEN)).unwrap();
    b.withdraw_from_account(&fungible, addr(ACCOUNT));
    let nft = ResourceAmount::from_str(&format!("#7,#5,{}", TOKEN)).unwrap();
    b.withdraw_from_account(&nft, addr(ACCOUNT));
    let t = b.build(vec![]).unwrap();
    assert_eq!(
        t.instructions[0],
        Instruction::CallMethod {
            component_address: addr(ACCOUNT),
            method: "withdraw".to_string(),
            args: vec![Value::Dec(Decimal::from_units(2)), Value::Addr(addr(TOKEN))],
        }
    );
    assert_eq!(
        t.instructions[1],
        Instruction::CallMethod {
            component_address: addr(ACCOUNT),
            method: "withdraw_nfts".to_string(),
            args: vec![Value::NftIds(vec![5, 7]), Value::Addr(addr(TOKEN))],
        }
    );
}

#[test]
fn mint_borrows_the_badge_and_calls_the_system() {
    let p = BasicAbiProvider::new();
    let mut b = TransactionBuilder::new(&p);
    let badge = addr(ACCOUNT);
    b.mint(Decimal::from_units(100), addr(TOKEN), badge);
    let t = b.build(vec![]).unwrap();
    assert_eq!(t.instructions[0], Instruction::DeclareBucketRef);
    assert_eq!(
        t.instructions[1],
        Instruction::BorrowFromContext {
            amount: Decimal::from_units(1),
            resource_address: badge,
            to: 0
        }
    );
    assert_eq!(
        t.instructions[2],
        Instruction::CallFunction {
            package_address: system_package(),
            blueprint_name: "System".to_string(),
            function: "mint".to_string(),
            args: vec![
                Value::Dec(Decimal::from_units(100)),
                Value::Addr(addr(TOKEN)),
                Value::BucketRef(0),
            ],
        }
    );
}

#[test]
fn account_creation_and_publishing_use_the_fixed_packages() {
    let p = BasicAbiProvider::new();
    let mut b = TransactionBuilder::new(&p);
    b.new_account(addr(TOKEN));
    b.publish_package(&[1, 2, 3]);
    b.new_account_with_resource(addr(TOKEN), Decimal::from_units(9), addr(TOKEN));
    let t = b.build(vec![]).unwrap();
    assert_eq!(t.instructions[0], Instruction::DeclareBucket);
    assert_eq!(
        t.instructions[1],
        Instruction::CallFunction {
            package_address: account_package(),
            blueprint_name: "Account".to_string(),
            function: "new".to_string(),
            args: vec![Value::Addr(addr(TOKEN))],
        }
    );
    assert_eq!(
        t.instructions[2],
        Instruction::CallFunction {
            package_address: system_package(),
            blueprint_name: "System".to_string(),
            function: "publish_package".to_string(),
            args: vec![Value::Blob(vec![1, 2, 3])],
        }
    );
    assert_eq!(
        t.instructions[3],
        Instruction::TakeFromContext {
            amount: Decimal::from_units(9),
            resource_address: addr(TOKEN),
            to: 0
        }
    );
    assert_eq!(
        t.instructions[4],
        Instruction::CallFunction {
            package_address: account_package(),
            blueprint_name: "Account".to_string(),
            function: "with_bucket".to_string(),
            args: vec![Value::Addr(addr(TOKEN)), Value::Bucket(0)],
        }
    );
}

#[test]
fn token_and_badge_creation_carry_the_declared_shapes() {
    let p = BasicAbiProvider::new();
    let mut b = TransactionBuilder::new(&p);
    b.new_token_fixed(vec![("name".to_string(), "tok".to_string())], Decimal::from_units(1000));
    b.new_badge_mutable(vec![], addr(ACCOUNT));
    let t = b.build(vec![]).unwrap();
    match &t.instructions[0] {
        Instruction::CallFunction { package_address, blueprint_name, function, args } => {
            assert_eq!(*package_address, system_package());
            assert_eq!(blueprint_name, "System");
            assert_eq!(function, "new_resource");
            assert_eq!(args.len(), 6);
            assert_eq!(args[2], Value::U16(0));
            assert_eq!(
                args[5],
                Value::Supply(Some(tx_builder::resource::NewSupply::Fungible {
                    amount: Decimal::from_units(1000)
                }))
            );
        },
        other => panic!("expected a function call, got {:?}", other),
    }
    match &t.instructions[1] {
        Instruction::CallFunction { args, .. } => {
            assert_eq!(
                args[2],
                Value::U16(tx_builder::resource::MINTABLE | tx_builder::resource::BURNABLE)
            );
            assert_eq!(
                args[4],
                Value::Auth(vec![(
                    addr(ACCOUNT),
                    tx_builder::resource::MAY_MINT | tx_builder::resource::MAY_BURN
                )])
            );
        },
        other => panic!("expected a function call, got {:?}", other),
    }
}

#[test]
fn partial_emissions_of_a_failing_call_are_kept() {
    // the declared sharp edge: a failing later parameter does not roll
    // back instructions already emitted for earlier parameters
    let p = provider_with(vec![Type::Bucket, Type::U8]);
    let mut b = TransactionBuilder::new(&p);
    b.call_function(
        addr(PACKAGE),
        "Greeter",
        "greet",
        vec![format!("1,{}", TOKEN), "bad".to_string()],
        None,
    );
    let e = b.build(vec![]).unwrap_err();
    assert_eq!(
        e,
        BuildTransactionError::FailedToBuildArgs(BuildArgsError::FailedToParse(
            1,
            Type::U8,
            "bad".to_string()
        ))
    );
}
