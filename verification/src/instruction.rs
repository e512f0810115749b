//! The closed instruction set of the execution engine, ordered programs of
//! instructions, and the declare-before-use discipline.

use vstd::prelude::*;
use crate::address::Address;
use crate::decimal::Decimal;
use crate::value::{Value, ValueV, copy_values};
use crate::resource::copy_bytes;

verus! {

/// One low-level operation of the execution engine.
#[derive(Debug, PartialEq, Eq)]
pub enum Instruction {
    /// Reserves the next bucket id.
    DeclareBucket,
    /// Reserves the next bucket-reference id.
    DeclareBucketRef,
    /// Fills bucket `to` with resource from the transaction context.
    TakeFromContext { amount: Decimal, resource_address: Address, to: usize },
    /// Fills bucket reference `to` by borrowing from the context.
    BorrowFromContext { amount: Decimal, resource_address: Address, to: usize },
    /// Invokes a function of a blueprint.
    CallFunction { package_address: Address, blueprint_name: String, function: String, args: Vec<Value> },
    /// Invokes a method on a component.
    CallMethod { component_address: Address, method: String, args: Vec<Value> },
    /// Drops every bucket reference still live.
    DropAllBucketRefs,
    /// Deposits every remaining bucket into an account.
    DepositAllBuckets { account: Address },
    /// Terminates the program, carrying the signers.
    End { signers: Vec<Address> },
}

/// Mathematical content of an `Instruction`.
pub ghost enum InstructionV {
    DeclareBucket,
    DeclareBucketRef,
    TakeFromContext { amount: int, resource_address: Seq<u8>, to: int },
    BorrowFromContext { amount: int, resource_address: Seq<u8>, to: int },
    CallFunction { package_address: Seq<u8>, blueprint_name: Seq<char>, function: Seq<char>, args: Seq<ValueV> },
    CallMethod { component_address: Seq<u8>, method: Seq<char>, args: Seq<ValueV> },
    DropAllBucketRefs,
    DepositAllBuckets { account: Seq<u8> },
    End { signers: Seq<Seq<u8>> },
}

impl View for Instruction {
    type V = InstructionV;

    open spec fn view(&self) -> InstructionV {
        match self {
            Instruction::DeclareBucket => InstructionV::DeclareBucket,
            Instruction::DeclareBucketRef => InstructionV::DeclareBucketRef,
            Instruction::TakeFromContext { amount, resource_address, to } => (
            InstructionV::TakeFromContext {
                amount: amount@,
                resource_address: resource_address@,
                to: *to as int,
            }),
            Instruction::BorrowFromContext { amount, resource_address, to } => (
            InstructionV::BorrowFromContext {
                amount: amount@,
                resource_address: resource_address@,
                to: *to as int,
            }),
            Instruction::CallFunction { package_address, blueprint_name, function, args } => (
            InstructionV::CallFunction {
                package_address: package_address@,
                blueprint_name: blueprint_name@,
                function: function@,
                args: Seq::new(args@.len(), |i: int| args@[i]@),
            }),
            Instruction::CallMethod { component_address, method, args } => (
            InstructionV::CallMethod {
                component_address: component_address@,
                method: method@,
                args: Seq::new(args@.len(), |i: int| args@[i]@),
            }),
            Instruction::DropAllBucketRefs => InstructionV::DropAllBucketRefs,
            Instruction::DepositAllBuckets { account } => InstructionV::DepositAllBuckets {
                account: account@,
            },
            Instruction::End { signers } => InstructionV::End {
                signers: Seq::new(signers@.len(), |i: int| signers@[i]@),
            },
        }
    }
}

/// The views of a sequence of instructions.
pub open spec fn instr_views(s: Seq<Instruction>) -> Seq<InstructionV> {
    Seq::new(s.len(), |i: int| s[i]@)
}

impl Instruction {
    /// A value-preserving copy.
    pub fn duplicate(&self) -> (r: Instruction)
        ensures
            r@ == self@,
    {
        match self {
            Instruction::DeclareBucket => Instruction::DeclareBucket,
            Instruction::DeclareBucketRef => Instruction::DeclareBucketRef,
            Instruction::TakeFromContext { amount, resource_address, to } => (
            Instruction::TakeFromContext {
                amount: *amount,
                resource_address: *resource_address,
                to: *to,
            }),
            Instruction::BorrowFromContext { amount, resource_address, to } => (
            Instruction::BorrowFromContext {
                amount: *amount,
                resource_address: *resource_address,
                to: *to,
            }),
            Instruction::CallFunction { package_address, blueprint_name, function, args } => {
                let r = Instruction::CallFunction {
                    package_address: *package_address,
                    blueprint_name: crate::value::copy_string(blueprint_name),
                    function: crate::value::copy_string(function),
                    args: copy_values(args),
                };
                proof {
                    assert(r@->CallFunction_args =~= self@->CallFunction_args);
                }
                r
            },
            Instruction::CallMethod { component_address, method, args } => {
                let r = Instruction::CallMethod {
                    component_address: *component_address,
                    method: crate::value::copy_string(method),
                    args: copy_values(args),
                };
                proof {
                    assert(r@->CallMethod_args =~= self@->CallMethod_args);
                }
                r
            },
            Instruction::DropAllBucketRefs => Instruction::DropAllBucketRefs,
            Instruction::DepositAllBuckets { account } => Instruction::DepositAllBuckets {
                account: *account,
            },
            Instruction::End { signers } => {
                let mut out: Vec<Address> = Vec::new();
                let mut i: usize = 0;
                while i < signers.len()
                    invariant
                        i <= signers@.len(),
                        out@.len() == i,
                        forall|k: int| 0 <= k < i ==> #[trigger] out@[k]@ == signers@[k]@,
                    decreases signers@.len() - i,
                {
                    out.push(signers[i]);
                    i = i + 1;
                }
                let r = Instruction::End { signers: out };
                proof {
                    assert(r@->End_signers =~= self@->End_signers);
                }
                r
            },
        }
    }
}

/// A finalized, immutable program.
#[derive(Debug)]
pub struct Transaction {
    pub instructions: Vec<Instruction>,
}

impl View for Transaction {
    type V = Seq<InstructionV>;

    open spec fn view(&self) -> Seq<InstructionV> {
        instr_views(self.instructions@)
    }
}

// ---------------------------------------------------------------------------
// Declaration counting and the declare-before-use discipline
// ---------------------------------------------------------------------------

/// Number of bucket declarations in a program prefix.
pub open spec fn count_buckets(s: Seq<InstructionV>) -> int
    decreases s.len(),
{
    if s.len() == 0 {
        0
    } else {
        count_buckets(s.drop_last()) + if s.last() is DeclareBucket {
            1int
        } else {
            0int
        }
    }
}

/// Number of bucket-reference declarations in a program prefix.
pub open spec fn count_bucket_refs(s: Seq<InstructionV>) -> int
    decreases s.len(),
{
    if s.len() == 0 {
        0
    } else {
        count_bucket_refs(s.drop_last()) + if s.last() is DeclareBucketRef {
            1int
        } else {
            0int
        }
    }
}

pub proof fn lemma_count_nonneg(s: Seq<InstructionV>)
    ensures
        count_buckets(s) >= 0,
        count_bucket_refs(s) >= 0,
    decreases s.len(),
{
    if s.len() > 0 {
        lemma_count_nonneg(s.drop_last());
    }
}

pub proof fn lemma_count_concat(a: Seq<InstructionV>, b: Seq<InstructionV>)
    ensures
        count_buckets(a + b) == count_buckets(a) + count_buckets(b),
        count_bucket_refs(a + b) == count_bucket_refs(a) + count_bucket_refs(b),
    decreases b.len(),
{
    if b.len() == 0 {
        assert(a + b =~= a);
    } else {
        assert((a + b).drop_last() =~= a + b.drop_last());
        lemma_count_concat(a, b.drop_last());
    }
}

/// Whether an argument list carries a reference to bucket `n`.
pub open spec fn args_ref_bucket(args: Seq<ValueV>, n: int) -> bool {
    exists|i: int| 0 <= i < args.len() && args[i] == ValueV::Bucket(n)
}

/// Whether an argument list carries a reference to bucket reference `n`.
pub open spec fn args_ref_bucket_ref(args: Seq<ValueV>, n: int) -> bool {
    exists|i: int| 0 <= i < args.len() && args[i] == ValueV::BucketRef(n)
}

/// Whether an instruction refers to bucket `n`.
pub open spec fn instr_refs_bucket(ins: InstructionV, n: int) -> bool {
    match ins {
        InstructionV::TakeFromContext { to, .. } => to == n,
        InstructionV::CallFunction { args, .. } => args_ref_bucket(args, n),
        InstructionV::CallMethod { args, .. } => args_ref_bucket(args, n),
        _ => false,
    }
}

/// Whether an instruction refers to bucket reference `n`.
pub open spec fn instr_refs_bucket_ref(ins: InstructionV, n: int) -> bool {
    match ins {
        InstructionV::BorrowFromContext { to, .. } => to == n,
        InstructionV::CallFunction { args, .. } => args_ref_bucket_ref(args, n),
        InstructionV::CallMethod { args, .. } => args_ref_bucket_ref(args, n),
        _ => false,
    }
}

/// Declare-before-use: every container id referred to at position `j` has
/// its declaration strictly earlier, i.e. the id is below the number of
/// declarations of its kind among the first `j` instructions.
pub open spec fn declare_before_use(prog: Seq<InstructionV>) -> bool {
    (forall|j: int, n: int|
        0 <= j < prog.len() && #[trigger] instr_refs_bucket(prog[j], n) ==> 0 <= n < count_buckets(
            prog.take(j),
        )) && (forall|j: int, n: int|
        0 <= j < prog.len() && #[trigger] instr_refs_bucket_ref(prog[j], n) ==> 0 <= n
            < count_bucket_refs(prog.take(j)))
}

/// Only declarations.
pub open spec fn all_declares(s: Seq<InstructionV>) -> bool {
    forall|i: int|
        0 <= i < s.len() ==> (#[trigger] s[i] is DeclareBucket || s[i] is DeclareBucketRef)
}

/// Every reference in `body` stays below the declaration counts of `res`.
pub open spec fn body_refs_ok(res: Seq<InstructionV>, body: Seq<InstructionV>) -> bool {
    (forall|j: int, n: int|
        0 <= j < body.len() && #[trigger] instr_refs_bucket(body[j], n) ==> 0 <= n < count_buckets(
            res,
        )) && (forall|j: int, n: int|
        0 <= j < body.len() && #[trigger] instr_refs_bucket_ref(body[j], n) ==> 0 <= n
            < count_bucket_refs(res))
}

/// Hoisting: a program assembled as reservations, then body, then `End`
/// declares every container before any instruction that refers to it, as
/// long as the body only refers to reserved ids.
pub proof fn lemma_hoisting(res: Seq<InstructionV>, body: Seq<InstructionV>, signers: Seq<Seq<u8>>)
    requires
        all_declares(res),
        body_refs_ok(res, body),
    ensures
        declare_before_use(res + body + seq![InstructionV::End { signers }]),
{
    let prog = res + body + seq![InstructionV::End { signers }];
    assert forall|j: int, n: int|
        0 <= j < prog.len() && #[trigger] instr_refs_bucket(prog[j], n) implies 0 <= n
        < count_buckets(prog.take(j)) by {
        if j < res.len() {
            assert(prog[j] == res[j]);
            assert(!instr_refs_bucket(prog[j], n));
        } else if j < res.len() + body.len() {
            assert(prog[j] == body[j - res.len()]);
            assert(0 <= n < count_buckets(res));
            assert(prog.take(j) =~= res + body.take(j - res.len()));
            lemma_count_concat(res, body.take(j - res.len()));
            lemma_count_nonneg(body.take(j - res.len()));
        } else {
            assert(prog[j] == InstructionV::End { signers });
            assert(!instr_refs_bucket(prog[j], n));
        }
    }
    assert forall|j: int, n: int|
        0 <= j < prog.len() && #[trigger] instr_refs_bucket_ref(prog[j], n) implies 0 <= n
        < count_bucket_refs(prog.take(j)) by {
        if j < res.len() {
            assert(prog[j] == res[j]);
            assert(!instr_refs_bucket_ref(prog[j], n));
        } else if j < res.len() + body.len() {
            assert(prog[j] == body[j - res.len()]);
            assert(0 <= n < count_bucket_refs(res));
            assert(prog.take(j) =~= res + body.take(j - res.len()));
            lemma_count_concat(res, body.take(j - res.len()));
            lemma_count_nonneg(body.take(j - res.len()));
        } else {
            assert(prog[j] == InstructionV::End { signers });
            assert(!instr_refs_bucket_ref(prog[j], n));
        }
    }
}


pub proof fn lemma_instr_views_push(s: Seq<Instruction>, x: Instruction)
    ensures
        instr_views(s.push(x)) == instr_views(s).push(x@),
{
    assert(instr_views(s.push(x)) =~= instr_views(s).push(x@));
}

pub proof fn lemma_count_push(s: Seq<InstructionV>, x: InstructionV)
    ensures
        count_buckets(s.push(x)) == count_buckets(s) + if x is DeclareBucket { 1int } else { 0int },
        count_bucket_refs(s.push(x)) == count_bucket_refs(s) + if x is DeclareBucketRef { 1int } else { 0int },
{
    assert(s.push(x).drop_last() =~= s);
    assert(s.push(x).last() == x);
}

pub proof fn lemma_count_le_len(s: Seq<InstructionV>)
    ensures
        0 <= count_buckets(s) <= s.len(),
        0 <= count_bucket_refs(s) <= s.len(),
    decreases s.len(),
{
    if s.len() > 0 {
        lemma_count_le_len(s.drop_last());
    }
}
} // verus!
