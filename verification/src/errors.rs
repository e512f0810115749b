//! Failures of argument coercion and of transaction building: pure data,
//! accumulated during construction and surfaced at finalization.

use vstd::prelude::*;
use crate::abi::Type;
use crate::address::Address;
use crate::value::copy_string;

verus! {

/// Failure while coercing one raw argument of a call.
#[derive(Debug, PartialEq, Eq)]
pub enum BuildArgsError {
    /// Fewer raw arguments were supplied than parameters declared.
    MissingArgument(usize, Type),
    /// The raw text does not satisfy the declared kind's grammar.
    FailedToParse(usize, Type, String),
    /// The declared kind is outside the supported set.
    UnsupportedType(usize, Type),
}

pub ghost enum BuildArgsErrorV {
    MissingArgument(int, Type),
    FailedToParse(int, Type, Seq<char>),
    UnsupportedType(int, Type),
}

impl View for BuildArgsError {
    type V = BuildArgsErrorV;

    open spec fn view(&self) -> BuildArgsErrorV {
        match self {
            BuildArgsError::MissingArgument(i, t) => BuildArgsErrorV::MissingArgument(
                *i as int,
                *t,
            ),
            BuildArgsError::FailedToParse(i, t, raw) => BuildArgsErrorV::FailedToParse(
                *i as int,
                *t,
                raw@,
            ),
            BuildArgsError::UnsupportedType(i, t) => BuildArgsErrorV::UnsupportedType(
                *i as int,
                *t,
            ),
        }
    }
}

impl BuildArgsError {
    /// A value-preserving copy.
    pub fn duplicate(&self) -> (r: BuildArgsError)
        ensures
            r@ == self@,
    {
        match self {
            BuildArgsError::MissingArgument(i, t) => BuildArgsError::MissingArgument(*i, *t),
            BuildArgsError::FailedToParse(i, t, raw) => BuildArgsError::FailedToParse(
                *i,
                *t,
                copy_string(raw),
            ),
            BuildArgsError::UnsupportedType(i, t) => BuildArgsError::UnsupportedType(*i, *t),
        }
    }
}

/// Failure of one builder call, recorded rather than raised.
#[derive(Debug, PartialEq, Eq)]
pub enum BuildTransactionError {
    /// The package or blueprint could not be introspected.
    FailedToExportFunctionAbi(Address, String, String),
    /// The component could not be introspected.
    FailedToExportMethodAbi(Address, String),
    /// The blueprint has no function of the given name.
    FunctionNotFound(String),
    /// The component has no method of the given name.
    MethodNotFound(String),
    /// Argument coercion failed.
    FailedToBuildArgs(BuildArgsError),
}

pub ghost enum BuildTransactionErrorV {
    FailedToExportFunctionAbi(Seq<u8>, Seq<char>, Seq<char>),
    FailedToExportMethodAbi(Seq<u8>, Seq<char>),
    FunctionNotFound(Seq<char>),
    MethodNotFound(Seq<char>),
    FailedToBuildArgs(BuildArgsErrorV),
}

impl View for BuildTransactionError {
    type V = BuildTransactionErrorV;

    open spec fn view(&self) -> BuildTransactionErrorV {
        match self {
            BuildTransactionError::FailedToExportFunctionAbi(a, b, f) => (
            BuildTransactionErrorV::FailedToExportFunctionAbi(a@, b@, f@)),
            BuildTransactionError::FailedToExportMethodAbi(a, m) => (
            BuildTransactionErrorV::FailedToExportMethodAbi(a@, m@)),
            BuildTransactionError::FunctionNotFound(f) => BuildTransactionErrorV::FunctionNotFound(
                f@,
            ),
            BuildTransactionError::MethodNotFound(m) => BuildTransactionErrorV::MethodNotFound(m@),
            BuildTransactionError::FailedToBuildArgs(e) => (
            BuildTransactionErrorV::FailedToBuildArgs(e@)),
        }
    }
}

impl BuildTransactionError {
    /// A value-preserving copy.
    pub fn duplicate(&self) -> (r: BuildTransactionError)
        ensures
            r@ == self@,
    {
        match self {
            BuildTransactionError::FailedToExportFunctionAbi(a, b, f) => (
            BuildTransactionError::FailedToExportFunctionAbi(*a, copy_string(b), copy_string(f))),
            BuildTransactionError::FailedToExportMethodAbi(a, m) => (
            BuildTransactionError::FailedToExportMethodAbi(*a, copy_string(m))),
            BuildTransactionError::FunctionNotFound(f) => BuildTransactionError::FunctionNotFound(
                copy_string(f),
            ),
            BuildTransactionError::MethodNotFound(m) => BuildTransactionError::MethodNotFound(
                copy_string(m),
            ),
            BuildTransactionError::FailedToBuildArgs(e) => (
            BuildTransactionError::FailedToBuildArgs(e.duplicate())),
        }
    }
}


/// The views of a sequence of build errors.
pub open spec fn err_views(s: Seq<BuildTransactionError>) -> Seq<BuildTransactionErrorV> {
    Seq::new(s.len(), |i: int| s[i]@)
}

pub proof fn lemma_err_views_push(s: Seq<BuildTransactionError>, x: BuildTransactionError)
    ensures
        err_views(s.push(x)) == err_views(s).push(x@),
{
    assert(err_views(s.push(x)) =~= err_views(s).push(x@));
}
} // verus!
