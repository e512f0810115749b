//! The transaction builder: fluent call, withdraw and deposit operations
//! that accumulate instructions and errors, with declaration instructions
//! hoisted ahead of the body at finalization.

use vstd::prelude::*;
use crate::abi::{
    AbiExportError, AbiProvider, Blueprint, BlueprintV, Function, FunctionV, Method, MethodV,
    Type, find_function_in, find_method_in,
};
use crate::address::{Address, account_package, system_package};
use crate::allocator::IdAllocator;
use crate::amount::{ResourceAmount, ResourceAmountV, amount_attos, address_of,
    parse_resource_amount_text};
use crate::big_decimal::{BigDecimal, parse_big_decimal_text};
use crate::decimal::{Decimal, DECIMAL_SCALE, parse_decimal_text};
use crate::errors::{
    BuildArgsError, BuildArgsErrorV, BuildTransactionError, BuildTransactionErrorV, err_views,
    lemma_err_views_push,
};
use crate::hash::{H256, parse_hash_text};
use crate::instruction::{
    Instruction, InstructionV, Transaction, instr_views, count_buckets, count_bucket_refs,
    lemma_instr_views_push, lemma_count_push, lemma_count_le_len, all_declares,
};
use crate::resource::{BURNABLE, MAY_BURN, MAY_MINT, MINTABLE, NewSupply, ResourceType, copy_ids};
use crate::text::{
    chars_bytes, parse_bool_text, parse_i128_text, parse_i16_text, parse_i32_text, parse_i64_text,
    parse_i8_text, parse_u128_text, parse_u16_text, parse_u32_text, parse_u64_text, parse_u8_text,
    parse_bool, parse_i128, parse_u128,
};
use crate::value::{Value, ValueV, value_views};

verus! {

/// Ghost state of a builder under construction: the reservations, the
/// body, and the errors recorded so far, in emission order.
pub ghost struct BuilderV {
    pub reservations: Seq<InstructionV>,
    pub body: Seq<InstructionV>,
    pub errors: Seq<BuildTransactionErrorV>,
}

/// The views of the raw string arguments of a call.
pub open spec fn str_views(args: Seq<String>) -> Seq<Seq<char>> {
    Seq::new(args.len(), |i: int| args[i]@)
}

/// The view of an optional account address.
pub open spec fn opt_addr_view(account: Option<Address>) -> Option<Seq<u8>> {
    match account {
        Some(a) => Some(a@),
        None => None,
    }
}

/// The view of an exported interface result.
pub open spec fn abi_view(abi: Result<Blueprint, AbiExportError>) -> Result<
    BlueprintV,
    AbiExportError,
> {
    match abi {
        Ok(bp) => Ok(bp@),
        Err(e) => Err(e),
    }
}

/// The withdraw instruction a resource amount expands to: fungible amounts
/// call `withdraw`, id sets call `withdraw_nfts`.
pub open spec fn withdraw_instr(ra: ResourceAmountV, account: Seq<u8>) -> InstructionV {
    match ra {
        ResourceAmountV::Fungible { amount, resource_address } => InstructionV::CallMethod {
            component_address: account,
            method: "withdraw"@,
            args: seq![ValueV::Dec(amount), ValueV::Addr(resource_address)],
        },
        ResourceAmountV::NonFungible { ids, resource_address } => InstructionV::CallMethod {
            component_address: account,
            method: "withdraw_nfts"@,
            args: seq![ValueV::NftIds(ids), ValueV::Addr(resource_address)],
        },
    }
}

/// Coercion of a primitive or simple custom kind: no state effect.
pub open spec fn coerce_pure(t: Type, arg: Seq<char>) -> Option<ValueV> {
    let b = chars_bytes(arg);
    match t {
        Type::Bool => match parse_bool_text(b) {
            Some(v) => Some(ValueV::Bool(v)),
            None => None,
        },
        Type::I8 => match parse_i8_text(b) {
            Some(v) => Some(ValueV::I8(v)),
            None => None,
        },
        Type::I16 => match parse_i16_text(b) {
            Some(v) => Some(ValueV::I16(v)),
            None => None,
        },
        Type::I32 => match parse_i32_text(b) {
            Some(v) => Some(ValueV::I32(v)),
            None => None,
        },
        Type::I64 => match parse_i64_text(b) {
            Some(v) => Some(ValueV::I64(v)),
            None => None,
        },
        Type::I128 => match parse_i128_text(b) {
            Some(v) => Some(ValueV::I128(v)),
            None => None,
        },
        Type::U8 => match parse_u8_text(b) {
            Some(v) => Some(ValueV::U8(v)),
            None => None,
        },
        Type::U16 => match parse_u16_text(b) {
            Some(v) => Some(ValueV::U16(v)),
            None => None,
        },
        Type::U32 => match parse_u32_text(b) {
            Some(v) => Some(ValueV::U32(v)),
            None => None,
        },
        Type::U64 => match parse_u64_text(b) {
            Some(v) => Some(ValueV::U64(v)),
            None => None,
        },
        Type::U128 => match parse_u128_text(b) {
            Some(v) => Some(ValueV::U128(v)),
            None => None,
        },
        Type::Str => Some(ValueV::Str(arg)),
        Type::Decimal => match parse_decimal_text(b) {
            Some(v) => Some(ValueV::Dec(v)),
            None => None,
        },
        Type::BigDecimal => match parse_big_decimal_text(b) {
            Some(v) => Some(ValueV::BigDec(v)),
            None => None,
        },
        Type::Address => match crate::address::parse_address_text(b) {
            Some(v) => Some(ValueV::Addr(v)),
            None => None,
        },
        Type::Hash => match parse_hash_text(b) {
            Some(v) => Some(ValueV::Hash(v)),
            None => None,
        },
        _ => None,
    }
}

/// Result of coercing one declared parameter.
pub ghost struct CoerceStep {
    pub res: Seq<InstructionV>,
    pub body: Seq<InstructionV>,
    pub out: Result<ValueV, BuildArgsErrorV>,
}

/// Coercion of the parameter at position `i`: container kinds withdraw
/// (when an account is given), reserve a fresh id and fill it; all other
/// kinds parse in place.
pub open spec fn coerce_one(
    res: Seq<InstructionV>,
    body: Seq<InstructionV>,
    i: int,
    t: Type,
    arg: Seq<char>,
    account: Option<Seq<u8>>,
) -> CoerceStep {
    if t is Bucket || t is BucketRef {
        match parse_resource_amount_text(chars_bytes(arg)) {
            Err(_) => CoerceStep {
                res,
                body,
                out: Err(BuildArgsErrorV::FailedToParse(i, t, arg)),
            },
            Ok(ra) => {
                let body1 = match account {
                    Some(acct) => body.push(withdraw_instr(ra, acct)),
                    None => body,
                };
                if t is Bucket {
                    let bid = count_buckets(res);
                    CoerceStep {
                        res: res.push(InstructionV::DeclareBucket),
                        body: body1.push(
                            InstructionV::TakeFromContext {
                                amount: amount_attos(ra),
                                resource_address: address_of(ra),
                                to: bid,
                            },
                        ),
                        out: Ok(ValueV::Bucket(bid)),
                    }
                } else {
                    let rid = count_bucket_refs(res);
                    CoerceStep {
                        res: res.push(InstructionV::DeclareBucketRef),
                        body: body1.push(
                            InstructionV::BorrowFromContext {
                                amount: amount_attos(ra),
                                resource_address: address_of(ra),
                                to: rid,
                            },
                        ),
                        out: Ok(ValueV::BucketRef(rid)),
                    }
                }
            },
        }
    } else if t is Other {
        CoerceStep { res, body, out: Err(BuildArgsErrorV::UnsupportedType(i, t)) }
    } else {
        match coerce_pure(t, arg) {
            Some(v) => CoerceStep { res, body, out: Ok(v) },
            None => CoerceStep { res, body, out: Err(BuildArgsErrorV::FailedToParse(i, t, arg)) },
        }
    }
}

/// Result of coercing a full argument list.
pub ghost struct CoerceAll {
    pub res: Seq<InstructionV>,
    pub body: Seq<InstructionV>,
    pub out: Result<Seq<ValueV>, BuildArgsErrorV>,
}

/// Coercion of all parameters from position `i` on, all-or-nothing for the
/// result, with instructions emitted before a failing position kept.
pub open spec fn coerce_args(
    res: Seq<InstructionV>,
    body: Seq<InstructionV>,
    types: Seq<Type>,
    args: Seq<Seq<char>>,
    account: Option<Seq<u8>>,
    i: int,
    acc: Seq<ValueV>,
) -> CoerceAll
    decreases types.len() - i,
{
    if i < 0 || i >= types.len() {
        CoerceAll { res, body, out: Ok(acc) }
    } else if args.len() <= i {
        CoerceAll { res, body, out: Err(BuildArgsErrorV::MissingArgument(i, types[i])) }
    } else {
        let st = coerce_one(res, body, i, types[i], args[i], account);
        match st.out {
            Err(e) => CoerceAll { res: st.res, body: st.body, out: Err(e) },
            Ok(v) => coerce_args(st.res, st.body, types, args, account, i + 1, acc.push(v)),
        }
    }
}

/// The full effect of a `call_function` operation for a given interface
/// answer: an error recorded, or the coerced call appended.
pub open spec fn call_function_tr(
    b: BuilderV,
    abi: Result<BlueprintV, AbiExportError>,
    package_address: Seq<u8>,
    blueprint_name: Seq<char>,
    function: Seq<char>,
    args: Seq<Seq<char>>,
    account: Option<Seq<u8>>,
) -> BuilderV {
    match abi {
        Err(_) => BuilderV {
            errors: b.errors.push(
                BuildTransactionErrorV::FailedToExportFunctionAbi(
                    package_address,
                    blueprint_name,
                    function,
                ),
            ),
            ..b
        },
        Ok(bp) => match find_function_in(bp.functions, function) {
            None => BuilderV {
                errors: b.errors.push(BuildTransactionErrorV::FunctionNotFound(function)),
                ..b
            },
            Some(f) => {
                let c = coerce_args(
                    b.reservations,
                    b.body,
                    f.inputs,
                    args,
                    account,
                    0,
                    Seq::empty(),
                );
                match c.out {
                    Err(e) => BuilderV {
                        reservations: c.res,
                        body: c.body,
                        errors: b.errors.push(BuildTransactionErrorV::FailedToBuildArgs(e)),
                    },
                    Ok(vals) => BuilderV {
                        reservations: c.res,
                        body: c.body.push(
                            InstructionV::CallFunction {
                                package_address,
                                blueprint_name,
                                function,
                                args: vals,
                            },
                        ),
                        errors: b.errors,
                    },
                }
            },
        },
    }
}

/// The full effect of a `call_method` operation for a given interface
/// answer.
pub open spec fn call_method_tr(
    b: BuilderV,
    abi: Result<BlueprintV, AbiExportError>,
    component_address: Seq<u8>,
    method: Seq<char>,
    args: Seq<Seq<char>>,
    account: Option<Seq<u8>>,
) -> BuilderV {
    match abi {
        Err(_) => BuilderV {
            errors: b.errors.push(
                BuildTransactionErrorV::FailedToExportMethodAbi(component_address, method),
            ),
            ..b
        },
        Ok(bp) => match find_method_in(bp.methods, method) {
            None => BuilderV {
                errors: b.errors.push(BuildTransactionErrorV::MethodNotFound(method)),
                ..b
            },
            Some(m) => {
                let c = coerce_args(
                    b.reservations,
                    b.body,
                    m.inputs,
                    args,
                    account,
                    0,
                    Seq::empty(),
                );
                match c.out {
                    Err(e) => BuilderV {
                        reservations: c.res,
                        body: c.body,
                        errors: b.errors.push(BuildTransactionErrorV::FailedToBuildArgs(e)),
                    },
                    Ok(vals) => BuilderV {
                        reservations: c.res,
                        body: c.body.push(
                            InstructionV::CallMethod { component_address, method, args: vals },
                        ),
                        errors: b.errors,
                    },
                }
            },
        },
    }
}

/// Utility for building a transaction.
pub struct TransactionBuilder<'a, A: AbiProvider> {
    abi_provider: &'a A,
    allocator: IdAllocator,
    reservations: Vec<Instruction>,
    instructions: Vec<Instruction>,
    errors: Vec<BuildTransactionError>,
}

impl<'a, A: AbiProvider> View for TransactionBuilder<'a, A> {
    type V = BuilderV;

    closed spec fn view(&self) -> BuilderV {
        BuilderV {
            reservations: instr_views(self.reservations@),
            body: instr_views(self.instructions@),
            errors: err_views(self.errors@),
        }
    }
}

impl<'a, A: AbiProvider> TransactionBuilder<'a, A> {
    /// Internal consistency: the allocator counters equal the declaration
    /// counts of the reservations, and reservations hold declarations only.
    pub closed spec fn wf(&self) -> bool {
        &&& self.allocator.buckets_issued() == count_buckets(self@.reservations)
        &&& self.allocator.bucket_refs_issued() == count_bucket_refs(self@.reservations)
        &&& all_declares(self@.reservations)
    }

    /// Starts a new, empty builder over an interface provider.
    pub fn new(abi_provider: &'a A) -> (r: TransactionBuilder<'a, A>)
        ensures
            r@.reservations == Seq::<InstructionV>::empty(),
            r@.body == Seq::<InstructionV>::empty(),
            r@.errors == Seq::<BuildTransactionErrorV>::empty(),
            r.wf(),
    {
        let r = TransactionBuilder {
            abi_provider,
            allocator: IdAllocator::new(),
            reservations: Vec::new(),
            instructions: Vec::new(),
            errors: Vec::new(),
        };
        proof {
            assert(r@.reservations =~= Seq::<InstructionV>::empty());
            assert(r@.body =~= Seq::<InstructionV>::empty());
            assert(r@.errors =~= Seq::<BuildTransactionErrorV>::empty());
        }
        r
    }

    /// Appends a raw instruction to the body.
    pub fn add_instruction(&mut self, inst: Instruction)
        requires
            old(self).wf(),
        ensures
            final(self)@ == (BuilderV { body: old(self)@.body.push(inst@), ..old(self)@ }),
            final(self).wf(),
    {
        proof {
            lemma_instr_views_push(self.instructions@, inst);
        }
        self.instructions.push(inst);
    }

    /// Reserves the next bucket id: appends the declaration and returns
    /// the id, which equals the number of buckets declared before it.
    pub fn declare_bucket(&mut self) -> (r: usize)
        requires
            old(self).wf(),
        ensures
            r == count_buckets(old(self)@.reservations),
            final(self)@ == (BuilderV {
                reservations: old(self)@.reservations.push(InstructionV::DeclareBucket),
                ..old(self)@
            }),
            final(self).wf(),
    {
        proof {
            lemma_instr_views_push(self.reservations@, Instruction::DeclareBucket);
            lemma_count_push(self@.reservations, InstructionV::DeclareBucket);
            lemma_count_le_len(self@.reservations);
        }
        self.reservations.push(Instruction::DeclareBucket);
        // reading the length brings the vector-length bound into scope,
        // which keeps the allocator counter from overflowing
        let n = self.reservations.len();
        self.allocator.new_bid()
    }

    /// Reserves the next bucket-reference id, symmetrically.
    pub fn declare_bucket_ref(&mut self) -> (r: usize)
        requires
            old(self).wf(),
        ensures
            r == count_bucket_refs(old(self)@.reservations),
            final(self)@ == (BuilderV {
                reservations: old(self)@.reservations.push(InstructionV::DeclareBucketRef),
                ..old(self)@
            }),
            final(self).wf(),
    {
        proof {
            lemma_instr_views_push(self.reservations@, Instruction::DeclareBucketRef);
            lemma_count_push(self@.reservations, InstructionV::DeclareBucketRef);
            lemma_count_le_len(self@.reservations);
        }
        self.reservations.push(Instruction::DeclareBucketRef);
        // reading the length brings the vector-length bound into scope,
        // which keeps the allocator counter from overflowing
        let n = self.reservations.len();
        self.allocator.new_rid()
    }

    /// Fills bucket `to` by taking resource from the transaction context.
    pub fn take_from_context(&mut self, amount: Decimal, resource_address: Address, to: usize)
        requires
            old(self).wf(),
        ensures
            final(self)@ == (BuilderV {
                body: old(self)@.body.push(
                    InstructionV::TakeFromContext {
                        amount: amount@,
                        resource_address: resource_address@,
                        to: to as int,
                    },
                ),
                ..old(self)@
            }),
            final(self).wf(),
    {
        self.add_instruction(Instruction::TakeFromContext { amount, resource_address, to });
    }

    /// Fills bucket reference `to` by borrowing from the context.
    pub fn borrow_from_context(&mut self, amount: Decimal, resource_address: Address, to: usize)
        requires
            old(self).wf(),
        ensures
            final(self)@ == (BuilderV {
                body: old(self)@.body.push(
                    InstructionV::BorrowFromContext {
                        amount: amount@,
                        resource_address: resource_address@,
                        to: to as int,
                    },
                ),
                ..old(self)@
            }),
            final(self).wf(),
    {
        self.add_instruction(Instruction::BorrowFromContext { amount, resource_address, to });
    }

    /// Withdraws a resource amount from an account into the context.
    pub fn withdraw_from_account(&mut self, resource_spec: &ResourceAmount, account: Address)
        requires
            old(self).wf(),
        ensures
            final(self)@ == (BuilderV {
                body: old(self)@.body.push(withdraw_instr(resource_spec@, account@)),
                ..old(self)@
            }),
            final(self).wf(),
    {
        match resource_spec {
            ResourceAmount::Fungible { amount, resource_address } => {
                let mut args: Vec<Value> = Vec::new();
                args.push(Value::Dec(*amount));
                args.push(Value::Addr(*resource_address));
                let inst = Instruction::CallMethod {
                    component_address: account,
                    method: String::from_str("withdraw"),
                    args,
                };
                proof {
                    assert(inst@->CallMethod_args =~= withdraw_instr(
                        resource_spec@,
                        account@,
                    )->CallMethod_args);
                }
                self.add_instruction(inst);
            },
            ResourceAmount::NonFungible { ids, resource_address } => {
                let idv = copy_ids(ids);
                let mut args: Vec<Value> = Vec::new();
                args.push(Value::NftIds(idv));
                args.push(Value::Addr(*resource_address));
                let inst = Instruction::CallMethod {
                    component_address: account,
                    method: String::from_str("withdraw_nfts"),
                    args,
                };
                proof {
                    assert(inst@->CallMethod_args =~= withdraw_instr(
                        resource_spec@,
                        account@,
                    )->CallMethod_args);
                }
                self.add_instruction(inst);
            },
        }
    }

    /// Drops every bucket reference still live.
    pub fn drop_all_bucket_refs(&mut self)
        requires
            old(self).wf(),
        ensures
            final(self)@ == (BuilderV {
                body: old(self)@.body.push(InstructionV::DropAllBucketRefs),
                ..old(self)@
            }),
            final(self).wf(),
    {
        self.add_instruction(Instruction::DropAllBucketRefs);
    }

    /// Deposits every remaining bucket into an account.
    pub fn deposit_all_buckets(&mut self, account: Address)
        requires
            old(self).wf(),
        ensures
            final(self)@ == (BuilderV {
                body: old(self)@.body.push(InstructionV::DepositAllBuckets { account: account@ }),
                ..old(self)@
            }),
            final(self).wf(),
    {
        self.add_instruction(Instruction::DepositAllBuckets { account });
    }

    /// Finalizes the program: with any error recorded, the first; else the
    /// reservations, the body, and a final `End`, in that order.  The
    /// builder is left unchanged, so building again yields an equivalent
    /// program.
    pub fn build(&mut self, signers: Vec<Address>) -> (r: Result<
        Transaction,
        BuildTransactionError,
    >)
        requires
            old(self).wf(),
        ensures
            final(self)@ == old(self)@,
            final(self).wf(),
            old(self)@.errors.len() > 0 ==> r is Err && r.unwrap_err()@ == old(self)@.errors[0],
            old(self)@.errors.len() == 0 ==> r is Ok && r.unwrap()@ == old(self)@.reservations
                + old(self)@.body + seq![
                InstructionV::End { signers: Seq::new(signers@.len(), |i: int| signers@[i]@) },
            ],
    {
        if self.errors.len() > 0 {
            let e = self.errors[0].duplicate();
            proof {
                assert(e@ == self@.errors[0]);
            }
            return Err(e);
        }
        let mut v: Vec<Instruction> = Vec::new();
        let mut i: usize = 0;
        while i < self.reservations.len()
            invariant
                i <= self.reservations@.len(),
                v@.len() == i,
                forall|k: int| 0 <= k < i ==> #[trigger] v@[k]@ == self.reservations@[k]@,
            decreases self.reservations@.len() - i,
        {
            let inst = self.reservations[i].duplicate();
            v.push(inst);
            i = i + 1;
        }
        let nres = self.reservations.len();
        let mut j: usize = 0;
        while j < self.instructions.len()
            invariant
                j <= self.instructions@.len(),
                nres == self.reservations@.len(),
                v@.len() == nres + j,
                forall|k: int| 0 <= k < nres ==> #[trigger] v@[k]@ == self.reservations@[k]@,
                forall|k: int|
                    nres <= k < nres + j ==> #[trigger] v@[k]@ == self.instructions@[k - nres]@,
            decreases self.instructions@.len() - j,
        {
            let inst = self.instructions[j].duplicate();
            v.push(inst);
            j = j + 1;
        }
        let e = Instruction::End { signers };
        v.push(e);
        let t = Transaction { instructions: v };
        proof {
            assert(t@ =~= self@.reservations + self@.body + seq![e@]);
        }
        Ok(t)
    }
}


/// First function of the given name in an exported interface.
fn find_function_abi(abi: &Blueprint, function: &String) -> (r: Option<Function>)
    ensures
        match find_function_in(abi@.functions, function@) {
            Some(f) => r is Some && r.unwrap()@ == f,
            None => r is None,
        },
{
    proof {
        assert(abi@.functions.skip(0) =~= abi@.functions);
    }
    let mut i: usize = 0;
    while i < abi.functions.len()
        invariant
            i <= abi.functions@.len(),
            find_function_in(abi@.functions, function@) == find_function_in(
                abi@.functions.skip(i as int),
                function@,
            ),
        decreases abi.functions@.len() - i,
    {
        proof {
            assert(abi@.functions.skip(i as int)[0] == abi@.functions[i as int]);
            assert(abi@.functions.skip(i as int).drop_first() =~= abi@.functions.skip(i + 1));
        }
        if abi.functions[i].name == *function {
            let f = crate::abi::copy_blueprint_function(&abi.functions[i]);
            return Some(f);
        }
        i = i + 1;
    }
    proof {
        assert(abi@.functions.skip(abi.functions@.len() as int) =~= Seq::<FunctionV>::empty());
    }
    None
}

/// First method of the given name in an exported interface.
fn find_method_abi(abi: &Blueprint, method: &String) -> (r: Option<Method>)
    ensures
        match find_method_in(abi@.methods, method@) {
            Some(m) => r is Some && r.unwrap()@ == m,
            None => r is None,
        },
{
    proof {
        assert(abi@.methods.skip(0) =~= abi@.methods);
    }
    let mut i: usize = 0;
    while i < abi.methods.len()
        invariant
            i <= abi.methods@.len(),
            find_method_in(abi@.methods, method@) == find_method_in(
                abi@.methods.skip(i as int),
                method@,
            ),
        decreases abi.methods@.len() - i,
    {
        proof {
            assert(abi@.methods.skip(i as int)[0] == abi@.methods[i as int]);
            assert(abi@.methods.skip(i as int).drop_first() =~= abi@.methods.skip(i + 1));
        }
        if abi.methods[i].name == *method {
            let m = crate::abi::copy_blueprint_method(&abi.methods[i]);
            return Some(m);
        }
        i = i + 1;
    }
    proof {
        assert(abi@.methods.skip(abi.methods@.len() as int) =~= Seq::<MethodV>::empty());
    }
    None
}

impl<'a, A: AbiProvider> TransactionBuilder<'a, A> {
    /// Parses one primitive argument against its declared kind.
    fn prepare_basic_ty(i: usize, ty: Type, arg: &String) -> (r: Result<Value, BuildArgsError>)
        requires
            ty is Bool || ty is I8 || ty is I16 || ty is I32 || ty is I64 || ty is I128
                || ty is U8 || ty is U16 || ty is U32 || ty is U64 || ty is U128 || ty is Str,
        ensures
            match coerce_pure(ty, arg@) {
                Some(v) => r is Ok && r.unwrap()@ == v,
                None => r is Err && r.unwrap_err()@ == BuildArgsErrorV::FailedToParse(
                    i as int,
                    ty,
                    arg@,
                ),
            },
    {
        let b = arg.as_str().as_bytes();
        proof {
            assert(b@ == chars_bytes(arg@));
            crate::text::lemma_parse_unsigned_nonneg(b@);
        }
        match ty {
            Type::Bool => match parse_bool(b) {
                Some(v) => Ok(Value::Bool(v)),
                None => Err(Self::parse_failure(i, ty, arg)),
            },
            Type::I8 => match parse_i128(b) {
                Some(v) => if -128 <= v && v <= 127 {
                    Ok(Value::I8(v as i8))
                } else {
                    Err(Self::parse_failure(i, ty, arg))
                },
                None => Err(Self::parse_failure(i, ty, arg)),
            },
            Type::I16 => match parse_i128(b) {
                Some(v) => if -32768 <= v && v <= 32767 {
                    Ok(Value::I16(v as i16))
                } else {
                    Err(Self::parse_failure(i, ty, arg))
                },
                None => Err(Self::parse_failure(i, ty, arg)),
            },
            Type::I32 => match parse_i128(b) {
                Some(v) => if -2147483648 <= v && v <= 2147483647 {
                    Ok(Value::I32(v as i32))
                } else {
                    Err(Self::parse_failure(i, ty, arg))
                },
                None => Err(Self::parse_failure(i, ty, arg)),
            },
            Type::I64 => match parse_i128(b) {
                Some(v) => if -9223372036854775808 <= v && v <= 9223372036854775807 {
                    Ok(Value::I64(v as i64))
                } else {
                    Err(Self::parse_failure(i, ty, arg))
                },
                None => Err(Self::parse_failure(i, ty, arg)),
            },
            Type::I128 => match parse_i128(b) {
                Some(v) => Ok(Value::I128(v)),
                None => Err(Self::parse_failure(i, ty, arg)),
            },
            Type::U8 => match parse_u128(b) {
                Some(v) => if v <= 255 {
                    Ok(Value::U8(v as u8))
                } else {
                    Err(Self::parse_failure(i, ty, arg))
                },
                None => Err(Self::parse_failure(i, ty, arg)),
            },
            Type::U16 => match parse_u128(b) {
                Some(v) => if v <= 65535 {
                    Ok(Value::U16(v as u16))
                } else {
                    Err(Self::parse_failure(i, ty, arg))
                },
                None => Err(Self::parse_failure(i, ty, arg)),
            },
            Type::U32 => match parse_u128(b) {
                Some(v) => if v <= 4294967295 {
                    Ok(Value::U32(v as u32))
                } else {
                    Err(Self::parse_failure(i, ty, arg))
                },
                None => Err(Self::parse_failure(i, ty, arg)),
            },
            Type::U64 => match parse_u128(b) {
                Some(v) => if v <= 18446744073709551615 {
                    Ok(Value::U64(v as u64))
                } else {
                    Err(Self::parse_failure(i, ty, arg))
                },
                None => Err(Self::parse_failure(i, ty, arg)),
            },
            Type::U128 => match parse_u128(b) {
                Some(v) => Ok(Value::U128(v)),
                None => Err(Self::parse_failure(i, ty, arg)),
            },
            Type::Str => Ok(Value::Str(crate::value::copy_string(arg))),
            _ => {
                proof {
                    assert(false);
                }
                Err(Self::parse_failure(i, ty, arg))
            },
        }
    }

    /// The failure record of an unparsable argument.
    fn parse_failure(i: usize, ty: Type, arg: &String) -> (r: BuildArgsError)
        ensures
            r@ == BuildArgsErrorV::FailedToParse(i as int, ty, arg@),
    {
        BuildArgsError::FailedToParse(i, ty, crate::value::copy_string(arg))
    }

    /// Coerces one custom-kind argument; container kinds emit their
    /// withdraw, declaration and fill instructions.
    fn prepare_custom_ty(
        &mut self,
        i: usize,
        ty: Type,
        arg: &String,
        account: Option<Address>,
    ) -> (r: Result<Value, BuildArgsError>)
        requires
            old(self).wf(),
            ty is Decimal || ty is BigDecimal || ty is Address || ty is Hash || ty is Bucket
                || ty is BucketRef,
        ensures
            ({
                let st = coerce_one(
                    old(self)@.reservations,
                    old(self)@.body,
                    i as int,
                    ty,
                    arg@,
                    opt_addr_view(account),
                );
                final(self)@.reservations == st.res && final(self)@.body == st.body
                    && final(self)@.errors == old(self)@.errors && (match st.out {
                    Ok(v) => r is Ok && r.unwrap()@ == v,
                    Err(e) => r is Err && r.unwrap_err()@ == e,
                })
            }),
            final(self).wf(),
    {
        let b = arg.as_str().as_bytes();
        proof {
            assert(b@ == chars_bytes(arg@));
        }
        match ty {
            Type::Decimal => match Decimal::parse(b) {
                Some(d) => Ok(Value::Dec(d)),
                None => Err(Self::parse_failure(i, ty, arg)),
            },
            Type::BigDecimal => match BigDecimal::parse(b) {
                Some(d) => Ok(Value::BigDec(d)),
                None => Err(Self::parse_failure(i, ty, arg)),
            },
            Type::Address => match Address::from_text(b) {
                Some(a) => Ok(Value::Addr(a)),
                None => Err(Self::parse_failure(i, ty, arg)),
            },
            Type::Hash => match H256::from_text(b) {
                Some(h) => Ok(Value::Hash(h)),
                None => Err(Self::parse_failure(i, ty, arg)),
            },
            Type::Bucket => {
                let ra = match ResourceAmount::from_bytes(b) {
                    Err(_) => {
                        return Err(Self::parse_failure(i, ty, arg));
                    },
                    Ok(ra) => ra,
                };
                if let Some(acct) = account {
                    self.withdraw_from_account(&ra, acct);
                }
                let bid = self.declare_bucket();
                let amt = ra.amount();
                let addr = ra.resource_address();
                self.take_from_context(amt, addr, bid);
                Ok(Value::Bucket(bid))
            },
            Type::BucketRef => {
                let ra = match ResourceAmount::from_bytes(b) {
                    Err(_) => {
                        return Err(Self::parse_failure(i, ty, arg));
                    },
                    Ok(ra) => ra,
                };
                if let Some(acct) = account {
                    self.withdraw_from_account(&ra, acct);
                }
                let rid = self.declare_bucket_ref();
                let amt = ra.amount();
                let addr = ra.resource_address();
                self.borrow_from_context(amt, addr, rid);
                Ok(Value::BucketRef(rid))
            },
            _ => {
                proof {
                    assert(false);
                }
                Err(Self::parse_failure(i, ty, arg))
            },
        }
    }

    /// Coerces a full raw argument list against the declared parameter
    /// types, in positional order; the first failure aborts the list, and
    /// instructions already emitted stay.
    fn prepare_args(
        &mut self,
        types: &Vec<Type>,
        args: &Vec<String>,
        account: Option<Address>,
    ) -> (r: Result<Vec<Value>, BuildArgsError>)
        requires
            old(self).wf(),
        ensures
            ({
                let c = coerce_args(
                    old(self)@.reservations,
                    old(self)@.body,
                    types@,
                    str_views(args@),
                    opt_addr_view(account),
                    0,
                    Seq::empty(),
                );
                final(self)@.reservations == c.res && final(self)@.body == c.body
                    && final(self)@.errors == old(self)@.errors && (match c.out {
                    Ok(vs) => r is Ok && value_views(r.unwrap()@) == vs,
                    Err(e) => r is Err && r.unwrap_err()@ == e,
                })
            }),
            final(self).wf(),
    {
        let ghost c = coerce_args(
            old(self)@.reservations,
            old(self)@.body,
            types@,
            str_views(args@),
            opt_addr_view(account),
            0,
            Seq::empty(),
        );
        proof {
            assert(value_views(Seq::<Value>::empty()) =~= Seq::<ValueV>::empty());
        }
        let mut encoded: Vec<Value> = Vec::new();
        let mut i: usize = 0;
        while i < types.len()
            invariant
                i <= types@.len(),
                self.wf(),
                self@.errors == old(self)@.errors,
                c == coerce_args(
                    old(self)@.reservations,
                    old(self)@.body,
                    types@,
                    str_views(args@),
                    opt_addr_view(account),
                    0,
                    Seq::empty(),
                ),
                c == coerce_args(
                    self@.reservations,
                    self@.body,
                    types@,
                    str_views(args@),
                    opt_addr_view(account),
                    i as int,
                    value_views(encoded@),
                ),
            decreases types@.len() - i,
        {
            let t = types[i];
            if i >= args.len() {
                return Err(BuildArgsError::MissingArgument(i, t));
            }
            let arg = &args[i];
            proof {
                assert(str_views(args@)[i as int] == arg@);
            }
            let ghost pre = self@;
            let ghost acc0 = value_views(encoded@);
            let one = match t {
                Type::Bool | Type::I8 | Type::I16 | Type::I32 | Type::I64 | Type::I128 | Type::U8
                    | Type::U16 | Type::U32 | Type::U64 | Type::U128 | Type::Str => (
                Self::prepare_basic_ty(i, t, arg)),
                Type::Decimal | Type::BigDecimal | Type::Address | Type::Hash | Type::Bucket
                    | Type::BucketRef => self.prepare_custom_ty(i, t, arg, account),
                Type::Other => Err(BuildArgsError::UnsupportedType(i, t)),
            };
            proof {
                let st = coerce_one(
                    pre.reservations,
                    pre.body,
                    i as int,
                    t,
                    arg@,
                    opt_addr_view(account),
                );
                assert(self@.reservations == st.res && self@.body == st.body);
            }
            match one {
                Ok(v) => {
                    let ghost vv = v@;
                    encoded.push(v);
                    proof {
                        assert(value_views(encoded@) =~= acc0.push(vv));
                    }
                },
                Err(e) => {
                    return Err(e);
                },
            }
            i = i + 1;
        }
        Ok(encoded)
    }

    /// Calls a function, resolving its declared parameters through a given
    /// interface answer: any failure is recorded as an error, success
    /// appends the call instruction after the coercion's emissions.
    pub fn call_function_with_abi(
        &mut self,
        abi: Result<Blueprint, AbiExportError>,
        package_address: Address,
        blueprint_name: &str,
        function: &str,
        args: Vec<String>,
        account: Option<Address>,
    )
        requires
            old(self).wf(),
        ensures
            final(self)@ == call_function_tr(
                old(self)@,
                abi_view(abi),
                package_address@,
                blueprint_name@,
                function@,
                str_views(args@),
                opt_addr_view(account),
            ),
            final(self).wf(),
    {
        match abi {
            Err(_) => {
                let e = BuildTransactionError::FailedToExportFunctionAbi(
                    package_address,
                    blueprint_name.to_owned(),
                    function.to_owned(),
                );
                proof {
                    lemma_err_views_push(self.errors@, e);
                }
                self.errors.push(e);
            },
            Ok(bp) => {
                let fname: String = function.to_owned();
                match find_function_abi(&bp, &fname) {
                    None => {
                        let e = BuildTransactionError::FunctionNotFound(fname);
                        proof {
                            lemma_err_views_push(self.errors@, e);
                        }
                        self.errors.push(e);
                    },
                    Some(f) => {
                        match self.prepare_args(&f.inputs, &args, account) {
                            Err(e) => {
                                let e2 = BuildTransactionError::FailedToBuildArgs(e);
                                proof {
                                    lemma_err_views_push(self.errors@, e2);
                                }
                                self.errors.push(e2);
                            },
                            Ok(vals) => {
                                let inst = Instruction::CallFunction {
                                    package_address,
                                    blueprint_name: blueprint_name.to_owned(),
                                    function: fname,
                                    args: vals,
                                };
                                proof {
                                    let c = coerce_args(
                                        old(self)@.reservations,
                                        old(self)@.body,
                                        f@.inputs,
                                        str_views(args@),
                                        opt_addr_view(account),
                                        0,
                                        Seq::empty(),
                                    );
                                    assert(inst@->CallFunction_args =~= c.out->Ok_0);
                                }
                                self.add_instruction(inst);
                            },
                        }
                    },
                }
            },
        }
    }

    /// Calls a function of a blueprint.  The declared parameters are
    /// obtained from the interface provider; resources named by container
    /// arguments are withdrawn from `account` when one is given, else
    /// taken from the transaction context.
    pub fn call_function(
        &mut self,
        package_address: Address,
        blueprint_name: &str,
        function: &str,
        args: Vec<String>,
        account: Option<Address>,
    )
        requires
            old(self).wf(),
        ensures
            exists|ar: Result<BlueprintV, AbiExportError>|
                final(self)@ == call_function_tr(
                    old(self)@,
                    ar,
                    package_address@,
                    blueprint_name@,
                    function@,
                    str_views(args@),
                    opt_addr_view(account),
                ),
            final(self).wf(),
    {
        let provider = self.abi_provider;
        let ar = provider.export_abi(&package_address, blueprint_name);
        let ghost arv = abi_view(ar);
        self.call_function_with_abi(ar, package_address, blueprint_name, function, args, account);
        proof {
            assert(final(self)@ == call_function_tr(
                old(self)@,
                arv,
                package_address@,
                blueprint_name@,
                function@,
                str_views(args@),
                opt_addr_view(account),
            ));
        }
    }

    /// Calls a method, resolving its declared parameters through a given
    /// interface answer.
    pub fn call_method_with_abi(
        &mut self,
        abi: Result<Blueprint, AbiExportError>,
        component_address: Address,
        method: &str,
        args: Vec<String>,
        account: Option<Address>,
    )
        requires
            old(self).wf(),
        ensures
            final(self)@ == call_method_tr(
                old(self)@,
                abi_view(abi),
                component_address@,
                method@,
                str_views(args@),
                opt_addr_view(account),
            ),
            final(self).wf(),
    {
        match abi {
            Err(_) => {
                let e = BuildTransactionError::FailedToExportMethodAbi(
                    component_address,
                    method.to_owned(),
                );
                proof {
                    lemma_err_views_push(self.errors@, e);
                }
                self.errors.push(e);
            },
            Ok(bp) => {
                let mname: String = method.to_owned();
                match find_method_abi(&bp, &mname) {
                    None => {
                        let e = BuildTransactionError::MethodNotFound(mname);
                        proof {
                            lemma_err_views_push(self.errors@, e);
                        }
                        self.errors.push(e);
                    },
                    Some(m) => {
                        match self.prepare_args(&m.inputs, &args, account) {
                            Err(e) => {
                                let e2 = BuildTransactionError::FailedToBuildArgs(e);
                                proof {
                                    lemma_err_views_push(self.errors@, e2);
                                }
                                self.errors.push(e2);
                            },
                            Ok(vals) => {
                                let inst = Instruction::CallMethod {
                                    component_address,
                                    method: mname,
                                    args: vals,
                                };
                                proof {
                                    let c = coerce_args(
                                        old(self)@.reservations,
                                        old(self)@.body,
                                        m@.inputs,
                                        str_views(args@),
                                        opt_addr_view(account),
                                        0,
                                        Seq::empty(),
                                    );
                                    assert(inst@->CallMethod_args =~= c.out->Ok_0);
                                }
                                self.add_instruction(inst);
                            },
                        }
                    },
                }
            },
        }
    }

    /// Calls a method on a component, with the same argument handling as
    /// `call_function`.
    pub fn call_method(
        &mut self,
        component_address: Address,
        method: &str,
        args: Vec<String>,
        account: Option<Address>,
    )
        requires
            old(self).wf(),
        ensures
            exists|ar: Result<BlueprintV, AbiExportError>|
                final(self)@ == call_method_tr(
                    old(self)@,
                    ar,
                    component_address@,
                    method@,
                    str_views(args@),
                    opt_addr_view(account),
                ),
            final(self).wf(),
    {
        let provider = self.abi_provider;
        let ar = provider.export_abi_component(&component_address);
        let ghost arv = abi_view(ar);
        self.call_method_with_abi(ar, component_address, method, args, account);
        proof {
            assert(final(self)@ == call_method_tr(
                old(self)@,
                arv,
                component_address@,
                method@,
                str_views(args@),
                opt_addr_view(account),
            ));
        }
    }
}

/// The view of an optional initial supply.
pub open spec fn opt_supply_view(s: Option<NewSupply>) -> Option<crate::resource::NewSupplyV> {
    match s {
        Some(v) => Some(v@),
        None => None,
    }
}

/// The resource-creation call: the fixed system-blueprint function with
/// kind, metadata, lifecycle flags, a permission placeholder, the badge
/// authorities, and the optional initial supply.
pub open spec fn new_resource_instr(
    resource_type: ResourceType,
    metadata: Seq<(Seq<char>, Seq<char>)>,
    flags: u16,
    authorities: Seq<(Seq<u8>, u16)>,
    supply: Option<crate::resource::NewSupplyV>,
) -> InstructionV {
    InstructionV::CallFunction {
        package_address: crate::address::system_package_bytes(),
        blueprint_name: "System"@,
        function: "new_resource"@,
        args: seq![
            ValueV::Resource(resource_type),
            ValueV::Meta(metadata),
            ValueV::U16(flags),
            ValueV::U16(0),
            ValueV::Auth(authorities),
            ValueV::Supply(supply),
        ],
    }
}

impl<'a, A: AbiProvider> TransactionBuilder<'a, A> {
    /// Publishes a package: a call of the system blueprint carrying the
    /// raw code.
    pub fn publish_package(&mut self, code: &[u8])
        requires
            old(self).wf(),
        ensures
            final(self)@ == (BuilderV {
                body: old(self)@.body.push(
                    InstructionV::CallFunction {
                        package_address: crate::address::system_package_bytes(),
                        blueprint_name: "System"@,
                        function: "publish_package"@,
                        args: seq![ValueV::Blob(code@)],
                    },
                ),
                ..old(self)@
            }),
            final(self).wf(),
    {
        let mut args: Vec<Value> = Vec::new();
        args.push(Value::Blob(vstd::slice::slice_to_vec(code)));
        let inst = Instruction::CallFunction {
            package_address: system_package(),
            blueprint_name: String::from_str("System"),
            function: String::from_str("publish_package"),
            args,
        };
        proof {
            assert(inst@->CallFunction_args =~= seq![ValueV::Blob(code@)]);
        }
        self.add_instruction(inst);
    }

    /// An authority map granting one badge one permission set.
    fn single_authority(badge: Address, permission: u16) -> (r: Vec<(Address, u16)>)
        ensures
            crate::value::auth_views(r@) == seq![(badge@, permission)],
    {
        let mut map: Vec<(Address, u16)> = Vec::new();
        map.push((badge, permission));
        proof {
            assert(crate::value::auth_views(map@) =~= seq![(badge@, permission)]);
        }
        map
    }

    /// Emits the resource-creation call.
    fn new_resource_call(
        &mut self,
        resource_type: ResourceType,
        metadata: Vec<(String, String)>,
        flags: u16,
        authorities: Vec<(Address, u16)>,
        supply: Option<NewSupply>,
    )
        requires
            old(self).wf(),
        ensures
            final(self)@ == (BuilderV {
                body: old(self)@.body.push(
                    new_resource_instr(
                        resource_type,
                        crate::value::meta_views(metadata@),
                        flags,
                        crate::value::auth_views(authorities@),
                        opt_supply_view(supply),
                    ),
                ),
                ..old(self)@
            }),
            final(self).wf(),
    {
        let ghost mv = crate::value::meta_views(metadata@);
        let ghost av = crate::value::auth_views(authorities@);
        let ghost sv = opt_supply_view(supply);
        let mut args: Vec<Value> = Vec::new();
        args.push(Value::Resource(resource_type));
        args.push(Value::Meta(metadata));
        args.push(Value::U16(flags));
        args.push(Value::U16(0));
        args.push(Value::Auth(authorities));
        args.push(Value::Supply(supply));
        let inst = Instruction::CallFunction {
            package_address: system_package(),
            blueprint_name: String::from_str("System"),
            function: String::from_str("new_resource"),
            args,
        };
        proof {
            assert(inst@->CallFunction_args =~= new_resource_instr(
                resource_type,
                mv,
                flags,
                av,
                sv,
            )->CallFunction_args);
        }
        self.add_instruction(inst);
    }

    /// Creates a token resource with mutable supply, minted and burned
    /// under the given badge.
    pub fn new_token_mutable(&mut self, metadata: Vec<(String, String)>, mint_badge_address: Address)
        requires
            old(self).wf(),
        ensures
            final(self)@ == (BuilderV {
                body: old(self)@.body.push(
                    new_resource_instr(
                        ResourceType::Fungible { divisibility: 18 },
                        crate::value::meta_views(metadata@),
                        MINTABLE | BURNABLE,
                        seq![(mint_badge_address@, MAY_MINT | MAY_BURN)],
                        None,
                    ),
                ),
                ..old(self)@
            }),
            final(self).wf(),
    {
        let auth = Self::single_authority(mint_badge_address, MAY_MINT | MAY_BURN);
        self.new_resource_call(
            ResourceType::Fungible { divisibility: 18 },
            metadata,
            MINTABLE | BURNABLE,
            auth,
            None,
        );
    }

    /// Creates a token resource with the given fixed supply and no mint
    /// authority.
    pub fn new_token_fixed(&mut self, metadata: Vec<(String, String)>, initial_supply: Decimal)
        requires
            old(self).wf(),
        ensures
            final(self)@ == (BuilderV {
                body: old(self)@.body.push(
                    new_resource_instr(
                        ResourceType::Fungible { divisibility: 18 },
                        crate::value::meta_views(metadata@),
                        0,
                        Seq::empty(),
                        Some(crate::resource::NewSupplyV::Fungible { amount: initial_supply@ }),
                    ),
                ),
                ..old(self)@
            }),
            final(self).wf(),
    {
        let auth: Vec<(Address, u16)> = Vec::new();
        proof {
            assert(crate::value::auth_views(auth@) =~= Seq::<(Seq<u8>, u16)>::empty());
        }
        self.new_resource_call(
            ResourceType::Fungible { divisibility: 18 },
            metadata,
            0,
            auth,
            Some(NewSupply::Fungible { amount: initial_supply }),
        );
    }

    /// Creates a badge resource with mutable supply.
    pub fn new_badge_mutable(&mut self, metadata: Vec<(String, String)>, mint_badge_address: Address)
        requires
            old(self).wf(),
        ensures
            final(self)@ == (BuilderV {
                body: old(self)@.body.push(
                    new_resource_instr(
                        ResourceType::Fungible { divisibility: 0 },
                        crate::value::meta_views(metadata@),
                        MINTABLE | BURNABLE,
                        seq![(mint_badge_address@, MAY_MINT | MAY_BURN)],
                        None,
                    ),
                ),
                ..old(self)@
            }),
            final(self).wf(),
    {
        let auth = Self::single_authority(mint_badge_address, MAY_MINT | MAY_BURN);
        self.new_resource_call(
            ResourceType::Fungible { divisibility: 0 },
            metadata,
            MINTABLE | BURNABLE,
            auth,
            None,
        );
    }

    /// Creates a badge resource with the given fixed supply.
    pub fn new_badge_fixed(&mut self, metadata: Vec<(String, String)>, initial_supply: Decimal)
        requires
            old(self).wf(),
        ensures
            final(self)@ == (BuilderV {
                body: old(self)@.body.push(
                    new_resource_instr(
                        ResourceType::Fungible { divisibility: 0 },
                        crate::value::meta_views(metadata@),
                        0,
                        Seq::empty(),
                        Some(crate::resource::NewSupplyV::Fungible { amount: initial_supply@ }),
                    ),
                ),
                ..old(self)@
            }),
            final(self).wf(),
    {
        let auth: Vec<(Address, u16)> = Vec::new();
        proof {
            assert(crate::value::auth_views(auth@) =~= Seq::<(Seq<u8>, u16)>::empty());
        }
        self.new_resource_call(
            ResourceType::Fungible { divisibility: 0 },
            metadata,
            0,
            auth,
            Some(NewSupply::Fungible { amount: initial_supply }),
        );
    }

    /// Mints resource under a mint badge: borrows one badge unit and calls
    /// the system mint function with the fresh bucket-reference id.
    pub fn mint(&mut self, amount: Decimal, resource_address: Address, mint_badge_address: Address)
        requires
            old(self).wf(),
        ensures
            final(self)@ == (BuilderV {
                reservations: old(self)@.reservations.push(InstructionV::DeclareBucketRef),
                body: old(self)@.body.push(
                    InstructionV::BorrowFromContext {
                        amount: DECIMAL_SCALE as int,
                        resource_address: mint_badge_address@,
                        to: count_bucket_refs(old(self)@.reservations),
                    },
                ).push(
                    InstructionV::CallFunction {
                        package_address: crate::address::system_package_bytes(),
                        blueprint_name: "System"@,
                        function: "mint"@,
                        args: seq![
                            ValueV::Dec(amount@),
                            ValueV::Addr(resource_address@),
                            ValueV::BucketRef(count_bucket_refs(old(self)@.reservations)),
                        ],
                    },
                ),
                ..old(self)@
            }),
            final(self).wf(),
    {
        let rid = self.declare_bucket_ref();
        let one = Decimal::from_units(1);
        self.borrow_from_context(one, mint_badge_address, rid);
        let mut args: Vec<Value> = Vec::new();
        args.push(Value::Dec(amount));
        args.push(Value::Addr(resource_address));
        args.push(Value::BucketRef(rid));
        let inst = Instruction::CallFunction {
            package_address: system_package(),
            blueprint_name: String::from_str("System"),
            function: String::from_str("mint"),
            args,
        };
        proof {
            assert(inst@->CallFunction_args =~= seq![
                ValueV::Dec(amount@),
                ValueV::Addr(resource_address@),
                ValueV::BucketRef(rid as int),
            ]);
        }
        self.add_instruction(inst);
    }

    /// Creates an account owned by the given key.
    pub fn new_account(&mut self, key: Address)
        requires
            old(self).wf(),
        ensures
            final(self)@ == (BuilderV {
                body: old(self)@.body.push(
                    InstructionV::CallFunction {
                        package_address: crate::address::account_package_bytes(),
                        blueprint_name: "Account"@,
                        function: "new"@,
                        args: seq![ValueV::Addr(key@)],
                    },
                ),
                ..old(self)@
            }),
            final(self).wf(),
    {
        let mut args: Vec<Value> = Vec::new();
        args.push(Value::Addr(key));
        let inst = Instruction::CallFunction {
            package_address: account_package(),
            blueprint_name: String::from_str("Account"),
            function: String::from_str("new"),
            args,
        };
        proof {
            assert(inst@->CallFunction_args =~= seq![ValueV::Addr(key@)]);
        }
        self.add_instruction(inst);
    }

    /// Creates an account seeded with resource taken from the context:
    /// the context must already hold the required resource.
    pub fn new_account_with_resource(&mut self, key: Address, amount: Decimal, resource_address: Address)
        requires
            old(self).wf(),
        ensures
            final(self)@ == (BuilderV {
                reservations: old(self)@.reservations.push(InstructionV::DeclareBucket),
                body: old(self)@.body.push(
                    InstructionV::TakeFromContext {
                        amount: amount@,
                        resource_address: resource_address@,
                        to: count_buckets(old(self)@.reservations),
                    },
                ).push(
                    InstructionV::CallFunction {
                        package_address: crate::address::account_package_bytes(),
                        blueprint_name: "Account"@,
                        function: "with_bucket"@,
                        args: seq![
                            ValueV::Addr(key@),
                            ValueV::Bucket(count_buckets(old(self)@.reservations)),
                        ],
                    },
                ),
                ..old(self)@
            }),
            final(self).wf(),
    {
        let bid = self.declare_bucket();
        self.take_from_context(amount, resource_address, bid);
        let mut args: Vec<Value> = Vec::new();
        args.push(Value::Addr(key));
        args.push(Value::Bucket(bid));
        let inst = Instruction::CallFunction {
            package_address: account_package(),
            blueprint_name: String::from_str("Account"),
            function: String::from_str("with_bucket"),
            args,
        };
        proof {
            assert(inst@->CallFunction_args =~= seq![
                ValueV::Addr(key@),
                ValueV::Bucket(bid as int),
            ]);
        }
        self.add_instruction(inst);
    }
}

/// Every forward reference among coerced values stays below the
/// declaration counts of the reservations.
pub open spec fn vals_ok(acc: Seq<ValueV>, res: Seq<InstructionV>) -> bool {
    (forall|k: int|
        0 <= k < acc.len() && #[trigger] acc[k] is Bucket ==> 0 <= acc[k]->Bucket_0
            < count_buckets(res)) && (forall|k: int|
        0 <= k < acc.len() && #[trigger] acc[k] is BucketRef ==> 0 <= acc[k]->BucketRef_0
            < count_bucket_refs(res))
}

/// A body stays within bounds when a declaration is reserved.
proof fn lemma_refs_ok_grow(res: Seq<InstructionV>, body: Seq<InstructionV>, d: InstructionV)
    requires
        crate::instruction::body_refs_ok(res, body),
    ensures
        crate::instruction::body_refs_ok(res.push(d), body),
        count_buckets(res.push(d)) >= count_buckets(res),
        count_bucket_refs(res.push(d)) >= count_bucket_refs(res),
{
    lemma_count_push(res, d);
}

/// A body stays within bounds when an in-bounds instruction is appended.
proof fn lemma_refs_ok_push(res: Seq<InstructionV>, body: Seq<InstructionV>, x: InstructionV)
    requires
        crate::instruction::body_refs_ok(res, body),
        forall|n: int| #[trigger] crate::instruction::instr_refs_bucket(x, n) ==> 0 <= n
            < count_buckets(res),
        forall|n: int| #[trigger] crate::instruction::instr_refs_bucket_ref(x, n) ==> 0 <= n
            < count_bucket_refs(res),
    ensures
        crate::instruction::body_refs_ok(res, body.push(x)),
{
    assert forall|j: int, n: int|
        0 <= j < body.push(x).len() && #[trigger] crate::instruction::instr_refs_bucket(
            body.push(x)[j],
            n,
        ) implies 0 <= n < count_buckets(res) by {
        if j < body.len() {
            assert(body.push(x)[j] == body[j]);
        } else {
            assert(body.push(x)[j] == x);
        }
    }
    assert forall|j: int, n: int|
        0 <= j < body.push(x).len() && #[trigger] crate::instruction::instr_refs_bucket_ref(
            body.push(x)[j],
            n,
        ) implies 0 <= n < count_bucket_refs(res) by {
        if j < body.len() {
            assert(body.push(x)[j] == body[j]);
        } else {
            assert(body.push(x)[j] == x);
        }
    }
}

/// A withdraw call refers to no container.
proof fn lemma_withdraw_refs_none(ra: ResourceAmountV, account: Seq<u8>)
    ensures
        forall|n: int| !(#[trigger] crate::instruction::instr_refs_bucket(
            withdraw_instr(ra, account),
            n,
        )),
        forall|n: int| !(#[trigger] crate::instruction::instr_refs_bucket_ref(
            withdraw_instr(ra, account),
            n,
        )),
{
    let w = withdraw_instr(ra, account);
    let args = w->CallMethod_args;
    assert forall|n: int| !(#[trigger] crate::instruction::instr_refs_bucket(w, n)) by {
        assert(args.len() == 2);
        assert(!(args[0] is Bucket));
        assert(!(args[1] is Bucket));
        assert(forall|k: int| 0 <= k < args.len() ==> #[trigger] args[k] != ValueV::Bucket(n));
    }
    assert forall|n: int| !(#[trigger] crate::instruction::instr_refs_bucket_ref(w, n)) by {
        assert(!(args[0] is BucketRef));
        assert(!(args[1] is BucketRef));
        assert(forall|k: int| 0 <= k < args.len() ==> #[trigger] args[k] != ValueV::BucketRef(n));
    }
}

/// One coercion step keeps every reference declared: instructions it
/// appends refer only to ids already reserved, and a returned container
/// value refers to the id it just reserved.
proof fn lemma_coerce_one_refs(
    res: Seq<InstructionV>,
    body: Seq<InstructionV>,
    i: int,
    t: Type,
    arg: Seq<char>,
    account: Option<Seq<u8>>,
)
    requires
        crate::instruction::body_refs_ok(res, body),
    ensures
        ({
            let st = coerce_one(res, body, i, t, arg, account);
            crate::instruction::body_refs_ok(st.res, st.body) && count_buckets(st.res)
                >= count_buckets(res) && count_bucket_refs(st.res) >= count_bucket_refs(res) && (
            match st.out {
                Ok(v) => (v is Bucket ==> 0 <= v->Bucket_0 < count_buckets(st.res)) && (
                v is BucketRef ==> 0 <= v->BucketRef_0 < count_bucket_refs(st.res)),
                Err(_) => true,
            })
        }),
{
    let st = coerce_one(res, body, i, t, arg, account);
    lemma_count_le_len(res);
    if t is Bucket || t is BucketRef {
        match parse_resource_amount_text(chars_bytes(arg)) {
            Err(_) => {},
            Ok(ra) => {
                let body1 = match account {
                    Some(acct) => body.push(withdraw_instr(ra, acct)),
                    None => body,
                };
                if account is Some {
                    lemma_withdraw_refs_none(ra, account->Some_0);
                    lemma_refs_ok_push(res, body, withdraw_instr(ra, account->Some_0));
                }
                if t is Bucket {
                    let d = InstructionV::DeclareBucket;
                    lemma_refs_ok_grow(res, body1, d);
                    lemma_count_push(res, d);
                    let fill = InstructionV::TakeFromContext {
                        amount: amount_attos(ra),
                        resource_address: address_of(ra),
                        to: count_buckets(res),
                    };
                    lemma_refs_ok_push(res.push(d), body1, fill);
                } else {
                    let d = InstructionV::DeclareBucketRef;
                    lemma_refs_ok_grow(res, body1, d);
                    lemma_count_push(res, d);
                    let fill = InstructionV::BorrowFromContext {
                        amount: amount_attos(ra),
                        resource_address: address_of(ra),
                        to: count_bucket_refs(res),
                    };
                    lemma_refs_ok_push(res.push(d), body1, fill);
                }
            },
        }
    }
}

/// Coercing a whole argument list keeps every reference declared, and
/// every container value among the results refers to a reserved id.
proof fn lemma_coerce_args_refs(
    res: Seq<InstructionV>,
    body: Seq<InstructionV>,
    types: Seq<Type>,
    args: Seq<Seq<char>>,
    account: Option<Seq<u8>>,
    i: int,
    acc: Seq<ValueV>,
)
    requires
        crate::instruction::body_refs_ok(res, body),
        vals_ok(acc, res),
    ensures
        ({
            let c = coerce_args(res, body, types, args, account, i, acc);
            crate::instruction::body_refs_ok(c.res, c.body) && count_buckets(c.res)
                >= count_buckets(res) && count_bucket_refs(c.res) >= count_bucket_refs(res) && (
            match c.out {
                Ok(vs) => vals_ok(vs, c.res),
                Err(_) => true,
            })
        }),
    decreases types.len() - i,
{
    let c = coerce_args(res, body, types, args, account, i, acc);
    if i < 0 || i >= types.len() {
    } else if args.len() <= i {
    } else {
        let st = coerce_one(res, body, i, types[i], args[i], account);
        lemma_coerce_one_refs(res, body, i, types[i], args[i], account);
        match st.out {
            Err(_) => {},
            Ok(v) => {
                assert(vals_ok(acc.push(v), st.res)) by {
                    assert forall|k: int|
                        0 <= k < acc.push(v).len() && #[trigger] acc.push(v)[k] is Bucket implies 0
                        <= acc.push(v)[k]->Bucket_0 < count_buckets(st.res) by {
                        if k < acc.len() {
                            assert(acc.push(v)[k] == acc[k]);
                        } else {
                            assert(acc.push(v)[k] == v);
                        }
                    }
                    assert forall|k: int|
                        0 <= k < acc.push(v).len() && #[trigger] acc.push(v)[k] is BucketRef
                        implies 0 <= acc.push(v)[k]->BucketRef_0 < count_bucket_refs(st.res) by {
                        if k < acc.len() {
                            assert(acc.push(v)[k] == acc[k]);
                        } else {
                            assert(acc.push(v)[k] == v);
                        }
                    }
                }
                lemma_coerce_args_refs(st.res, st.body, types, args, account, i + 1, acc.push(v));
            },
        }
    }
}

/// Hoisting is preserved by `call_function`: whatever the interface answer,
/// the coerced call leaves every reference in the body below the
/// declaration counts of the reservations, so the finalized program
/// declares every container before use.
pub proof fn lemma_call_function_keeps_refs(
    b: BuilderV,
    abi: Result<BlueprintV, AbiExportError>,
    package_address: Seq<u8>,
    blueprint_name: Seq<char>,
    function: Seq<char>,
    args: Seq<Seq<char>>,
    account: Option<Seq<u8>>,
)
    requires
        crate::instruction::body_refs_ok(b.reservations, b.body),
    ensures
        ({
            let b2 = call_function_tr(
                b,
                abi,
                package_address,
                blueprint_name,
                function,
                args,
                account,
            );
            crate::instruction::body_refs_ok(b2.reservations, b2.body)
        }),
{
    match abi {
        Err(_) => {},
        Ok(bp) => match find_function_in(bp.functions, function) {
            None => {},
            Some(f) => {
                let c = coerce_args(
                    b.reservations,
                    b.body,
                    f.inputs,
                    args,
                    account,
                    0,
                    Seq::empty(),
                );
                lemma_coerce_args_refs(
                    b.reservations,
                    b.body,
                    f.inputs,
                    args,
                    account,
                    0,
                    Seq::empty(),
                );
                match c.out {
                    Err(_) => {},
                    Ok(vals) => {
                        let call = InstructionV::CallFunction {
                            package_address,
                            blueprint_name,
                            function,
                            args: vals,
                        };
                        assert forall|n: int| #[trigger] crate::instruction::instr_refs_bucket(
                            call,
                            n,
                        ) implies 0 <= n < count_buckets(c.res) by {
                            let k = choose|k: int|
                                0 <= k < vals.len() && vals[k] == ValueV::Bucket(n);
                            assert(vals[k] is Bucket);
                        }
                        assert forall|n: int| #[trigger] crate::instruction::instr_refs_bucket_ref(
                            call,
                            n,
                        ) implies 0 <= n < count_bucket_refs(c.res) by {
                            let k = choose|k: int|
                                0 <= k < vals.len() && vals[k] == ValueV::BucketRef(n);
                            assert(vals[k] is BucketRef);
                        }
                        lemma_refs_ok_push(c.res, c.body, call);
                    },
                }
            },
        },
    }
}

/// The same preservation for `call_method`.
pub proof fn lemma_call_method_keeps_refs(
    b: BuilderV,
    abi: Result<BlueprintV, AbiExportError>,
    component_address: Seq<u8>,
    method: Seq<char>,
    args: Seq<Seq<char>>,
    account: Option<Seq<u8>>,
)
    requires
        crate::instruction::body_refs_ok(b.reservations, b.body),
    ensures
        ({
            let b2 = call_method_tr(b, abi, component_address, method, args, account);
            crate::instruction::body_refs_ok(b2.reservations, b2.body)
        }),
{
    match abi {
        Err(_) => {},
        Ok(bp) => match find_method_in(bp.methods, method) {
            None => {},
            Some(m) => {
                let c = coerce_args(
                    b.reservations,
                    b.body,
                    m.inputs,
                    args,
                    account,
                    0,
                    Seq::empty(),
                );
                lemma_coerce_args_refs(
                    b.reservations,
                    b.body,
                    m.inputs,
                    args,
                    account,
                    0,
                    Seq::empty(),
                );
                match c.out {
                    Err(_) => {},
                    Ok(vals) => {
                        let call = InstructionV::CallMethod {
                            component_address,
                            method,
                            args: vals,
                        };
                        assert forall|n: int| #[trigger] crate::instruction::instr_refs_bucket(
                            call,
                            n,
                        ) implies 0 <= n < count_buckets(c.res) by {
                            let k = choose|k: int|
                                0 <= k < vals.len() && vals[k] == ValueV::Bucket(n);
                            assert(vals[k] is Bucket);
                        }
                        assert forall|n: int| #[trigger] crate::instruction::instr_refs_bucket_ref(
                            call,
                            n,
                        ) implies 0 <= n < count_bucket_refs(c.res) by {
                            let k = choose|k: int|
                                0 <= k < vals.len() && vals[k] == ValueV::BucketRef(n);
                            assert(vals[k] is BucketRef);
                        }
                        lemma_refs_ok_push(c.res, c.body, call);
                    },
                }
            },
        },
    }
}

/// Identifier monotonicity: a declaration hands out exactly the number of
/// ids of its kind issued before it and leaves the other kind's numbering
/// untouched, so any sequence of declarations receives the ids
/// 0, 1, 2, ... per kind, independent of how the two kinds interleave.
pub proof fn lemma_id_monotonic(res: Seq<InstructionV>)
    ensures
        count_buckets(res.push(InstructionV::DeclareBucket)) == count_buckets(res) + 1,
        count_bucket_refs(res.push(InstructionV::DeclareBucket)) == count_bucket_refs(res),
        count_buckets(res.push(InstructionV::DeclareBucketRef)) == count_buckets(res),
        count_bucket_refs(res.push(InstructionV::DeclareBucketRef)) == count_bucket_refs(res) + 1,
{
    lemma_count_push(res, InstructionV::DeclareBucket);
    lemma_count_push(res, InstructionV::DeclareBucketRef);
}

/// A well-formed builder's reservations hold declarations only.
impl<'a, A: AbiProvider> TransactionBuilder<'a, A> {
    pub proof fn lemma_wf_reservations(&self)
        requires
            self.wf(),
        ensures
            all_declares(self@.reservations),
    {
    }
}

/// The hoisting invariant of a finalized program: when the body refers
/// only to reserved ids, the program `build` assembles — reservations,
/// then body, then `End` — declares every container strictly before any
/// instruction that refers to it.
pub proof fn lemma_build_hoisting(b: BuilderV, signers: Seq<Seq<u8>>)
    requires
        all_declares(b.reservations),
        crate::instruction::body_refs_ok(b.reservations, b.body),
    ensures
        crate::instruction::declare_before_use(
            b.reservations + b.body + seq![InstructionV::End { signers }],
        ),
{
    crate::instruction::lemma_hoisting(b.reservations, b.body, signers);
}
} // verus!
