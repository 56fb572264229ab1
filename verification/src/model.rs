//! The case model: the parsed form of one annotation, the generated test
//! unit, and the errors a parse or validation can report.

use vstd::prelude::*;

verus! {

/// Whether a case asserts equality or inequality between the call and the
/// expected expression.
#[derive(Clone, Copy, Debug, PartialEq, Eq, Structural)]
pub enum Polarity {
    ShouldPass,
    ShouldFail,
}

/// Which grammar the annotation used; it decides the derived name.
#[derive(Clone, Copy, Debug, PartialEq, Eq, Structural)]
pub enum Mode {
    Single,
    Multi,
    Keyed,
}

/// Why a parse or validation failed. Every error is fatal: no unit is
/// emitted for the annotation that raised it.
#[derive(Clone, Copy, Debug, PartialEq, Eq, Structural)]
pub enum ParseError {
    /// A delimiter or string literal is never closed, or closed wrongly.
    Unbalanced,
    /// A case has no top-level `=>`.
    MissingArrow,
    /// Text remains after the grammar was fully matched.
    TrailingTokens,
    /// A value position is malformed, such as a delimiter group followed
    /// by more text.
    UnexpectedToken,
    /// No case was supplied where at least one is required.
    MissingCase,
    /// An argument or expected position holds no expression.
    EmptyExpr,
    /// A keyed clause stands where this grammar does not allow it.
    UnexpectedKey,
    /// The value of `name` is not a string literal holding an identifier.
    BadName,
    /// The keyed grammar met a clause without a `key =` head.
    ExpectedKey,
    /// The keyed grammar met a key it does not know.
    UnrecognizedKey,
    /// The keyed grammar met the same key twice.
    DuplicateKey,
    /// The keyed grammar has no `input` clause.
    MissingInput,
    /// The keyed grammar has no `expect` clause.
    MissingExpect,
    /// `input` and `expect` mix the bare and the list shape.
    MixedShapes,
    /// `input` and `expect` are lists of different lengths.
    ArityMismatch { input_len: usize, expect_len: usize },
}

/// One input/expected pair. `args` is never empty for a parsed case.
pub struct Case {
    pub args: Vec<Vec<char>>,
    pub expected: Vec<char>,
}

/// Mathematical image of a `Case`.
#[verifier::ext_equal]
pub struct CaseModel {
    pub args: Seq<Seq<char>>,
    pub expected: Seq<char>,
}

impl View for Case {
    type V = CaseModel;

    open spec fn view(&self) -> CaseModel {
        CaseModel { args: crate::scan::views_of(self.args@), expected: self.expected@ }
    }
}

/// A parsed case never has an empty argument list, and no argument or
/// expected expression is empty.
pub open spec fn case_wf(c: CaseModel) -> bool {
    c.args.len() >= 1 && c.expected.len() > 0 && forall|k: int|
        0 <= k < c.args.len() ==> c.args[k].len() > 0
}

/// The parsed form of one annotation.
pub struct Annotation {
    pub name: Option<Vec<char>>,
    pub mode: Mode,
    pub polarity: Polarity,
    pub cases: Vec<Case>,
}

/// Mathematical image of an `Annotation`.
#[verifier::ext_equal]
pub struct AnnotationModel {
    pub name: Option<Seq<char>>,
    pub mode: Mode,
    pub polarity: Polarity,
    pub cases: Seq<CaseModel>,
}

/// The views of a sequence of cases.
pub open spec fn case_views_of(cs: Seq<Case>) -> Seq<CaseModel> {
    Seq::new(cs.len(), |i: int| cs[i]@)
}

pub proof fn lemma_case_views_push(cs: Seq<Case>, c: Case)
    ensures
        case_views_of(cs.push(c)) == case_views_of(cs).push(c@),
{
    assert(case_views_of(cs.push(c)) =~= case_views_of(cs).push(c@));
}

impl View for Annotation {
    type V = AnnotationModel;

    open spec fn view(&self) -> AnnotationModel {
        AnnotationModel {
            name: match self.name {
                Some(n) => Some(n@),
                None => None,
            },
            mode: self.mode,
            polarity: self.polarity,
            cases: case_views_of(self.cases@),
        }
    }
}

/// The function under test: its identifier, and its full declaration text,
/// which expansion hands through unchanged.
pub struct TargetFunction {
    pub ident: Vec<char>,
    pub decl: Vec<char>,
}

/// Mathematical image of a `TargetFunction`.
#[verifier::ext_equal]
pub struct TargetModel {
    pub ident: Seq<char>,
    pub decl: Seq<char>,
}

impl View for TargetFunction {
    type V = TargetModel;

    open spec fn view(&self) -> TargetModel {
        TargetModel { ident: self.ident@, decl: self.decl@ }
    }
}

/// One emitted assertion: a call expression, the expected expression, and
/// the comparison the test makes between them.
pub struct Assertion {
    pub call: Vec<char>,
    pub expected: Vec<char>,
    pub polarity: Polarity,
}

/// Mathematical image of an `Assertion`.
#[verifier::ext_equal]
pub struct AssertionModel {
    pub call: Seq<char>,
    pub expected: Seq<char>,
    pub polarity: Polarity,
}

impl View for Assertion {
    type V = AssertionModel;

    open spec fn view(&self) -> AssertionModel {
        AssertionModel { call: self.call@, expected: self.expected@, polarity: self.polarity }
    }
}

/// The views of a sequence of assertions.
pub open spec fn assertion_views_of(xs: Seq<Assertion>) -> Seq<AssertionModel> {
    Seq::new(xs.len(), |i: int| xs[i]@)
}

pub proof fn lemma_assertion_views_push(xs: Seq<Assertion>, x: Assertion)
    ensures
        assertion_views_of(xs.push(x)) == assertion_views_of(xs).push(x@),
{
    assert(assertion_views_of(xs.push(x)) =~= assertion_views_of(xs).push(x@));
}

/// The generated test unit: an identifier and its assertions in
/// declaration order.
pub struct GeneratedTestUnit {
    pub name: Vec<char>,
    pub asserts: Vec<Assertion>,
}

/// Mathematical image of a `GeneratedTestUnit`.
#[verifier::ext_equal]
pub struct UnitModel {
    pub name: Seq<char>,
    pub asserts: Seq<AssertionModel>,
}

impl View for GeneratedTestUnit {
    type V = UnitModel;

    open spec fn view(&self) -> UnitModel {
        UnitModel { name: self.name@, asserts: assertion_views_of(self.asserts@) }
    }
}

/// The full output of one expansion: the declaration of the function under
/// test, verbatim, and the unit generated beside it.
pub struct Expansion {
    pub decl: Vec<char>,
    pub unit: GeneratedTestUnit,
}

/// Mathematical image of an `Expansion`.
#[verifier::ext_equal]
pub struct ExpansionModel {
    pub decl: Seq<char>,
    pub unit: UnitModel,
}

impl View for Expansion {
    type V = ExpansionModel;

    open spec fn view(&self) -> ExpansionModel {
        ExpansionModel { decl: self.decl@, unit: self.unit@ }
    }
}

} // verus!
