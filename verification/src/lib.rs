//! Inline test-case generation: a small DSL for declaring input/expected
//! pairs next to a function under test, parsed into a case model and
//! expanded into test units (assertions bound to the function's identifier).
//!
//! The pipeline is a single pass: annotation text in, generated unit out.
//! Expressions inside the DSL are opaque: they are carried through as raw
//! character runs, balanced with respect to parentheses, brackets, braces
//! and double-quoted string literals, and handed unchanged to whatever
//! compiles the emitted test unit.
#![verifier::loop_isolation(false)]

pub mod expand;
pub mod laws;
pub mod model;
pub mod parse;
pub mod scan;

use vstd::prelude::*;

use crate::expand::{expand, expansion_of};
use crate::model::{Expansion, ExpansionModel, ParseError, Polarity, TargetFunction};
use crate::parse::{
    parse_keyed, parse_keyed_spec, parse_multi, parse_multi_spec, parse_single, parse_single_spec,
};

verus! {

/// The view of an expansion result.
pub open spec fn exp_result_view(r: Result<Expansion, ParseError>) -> Result<
    ExpansionModel,
    ParseError,
> {
    match r {
        Ok(e) => Ok(e@),
        Err(e) => Err(e),
    }
}

/// What a single-case annotation produces: the parse of its text under
/// the given polarity, expanded against the target.
pub open spec fn single_model(
    args: Seq<char>,
    t: crate::model::TargetModel,
    pol: Polarity,
) -> Result<ExpansionModel, ParseError> {
    match parse_single_spec(args, pol) {
        Ok(ann) => Ok(expansion_of(ann, t)),
        Err(e) => Err(e),
    }
}

/// What a multi-case annotation produces.
pub open spec fn multi_model(args: Seq<char>, t: crate::model::TargetModel, pol: Polarity) -> Result<
    ExpansionModel,
    ParseError,
> {
    match parse_multi_spec(args, pol) {
        Ok(ann) => Ok(expansion_of(ann, t)),
        Err(e) => Err(e),
    }
}

/// What a keyed annotation produces.
pub open spec fn keyed_model(args: Seq<char>, t: crate::model::TargetModel) -> Result<
    ExpansionModel,
    ParseError,
> {
    match parse_keyed_spec(args) {
        Ok(ann) => Ok(expansion_of(ann, t)),
        Err(e) => Err(e),
    }
}

/// One case that should hold: parse `args` as a single-case annotation
/// and emit a unit asserting equality between the call and the expected
/// expression. The declaration is kept verbatim beside the unit.
pub fn pass(args: &Vec<char>, target: &TargetFunction) -> (r: Result<Expansion, ParseError>)
    ensures
        exp_result_view(r) == single_model(args@, target@, Polarity::ShouldPass),
        r matches Ok(e) ==> e.decl@ == target@.decl,
{
    match parse_single(args, Polarity::ShouldPass) {
        Ok(ann) => Ok(expand(&ann, target)),
        Err(e) => Err(e),
    }
}

/// One case that should not hold: like `pass`, with an inequality
/// assertion.
pub fn fail(args: &Vec<char>, target: &TargetFunction) -> (r: Result<Expansion, ParseError>)
    ensures
        exp_result_view(r) == single_model(args@, target@, Polarity::ShouldFail),
        r matches Ok(e) ==> e.decl@ == target@.decl,
{
    match parse_single(args, Polarity::ShouldFail) {
        Ok(ann) => Ok(expand(&ann, target)),
        Err(e) => Err(e),
    }
}

/// Several cases that should all hold: one unit with one equality
/// assertion per case, in declaration order.
pub fn multi_pass(args: &Vec<char>, target: &TargetFunction) -> (r: Result<Expansion, ParseError>)
    ensures
        exp_result_view(r) == multi_model(args@, target@, Polarity::ShouldPass),
        r matches Ok(e) ==> e.decl@ == target@.decl,
{
    match parse_multi(args, Polarity::ShouldPass) {
        Ok(ann) => Ok(expand(&ann, target)),
        Err(e) => Err(e),
    }
}

/// Several cases that should all fail to hold: one unit with one
/// inequality assertion per case, in declaration order.
pub fn multi_fail(args: &Vec<char>, target: &TargetFunction) -> (r: Result<Expansion, ParseError>)
    ensures
        exp_result_view(r) == multi_model(args@, target@, Polarity::ShouldFail),
        r matches Ok(e) ==> e.decl@ == target@.decl,
{
    match parse_multi(args, Polarity::ShouldFail) {
        Ok(ann) => Ok(expand(&ann, target)),
        Err(e) => Err(e),
    }
}

/// The keyed grammar: `name`, `input` and `expect` clauses in any order,
/// bare with bare or list with list of equal length, expanded into
/// equality assertions paired by position.
pub fn fn_test(args: &Vec<char>, target: &TargetFunction) -> (r: Result<Expansion, ParseError>)
    ensures
        exp_result_view(r) == keyed_model(args@, target@),
        r matches Ok(e) ==> e.decl@ == target@.decl,
{
    match parse_keyed(args) {
        Ok(ann) => Ok(expand(&ann, target)),
        Err(e) => Err(e),
    }
}

} // verus!
