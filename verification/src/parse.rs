//! The annotation parser: from raw annotation text to the case model.
//!
//! Three grammars share one lexical ground: splitting on top-level commas,
//! a `=>` between a value shape and an expected expression, a leading
//! identifier followed by a bare `=` opening a keyed clause, and opaque
//! expressions carried through as trimmed character runs.

use crate::model::{Annotation, AnnotationModel, Case, CaseModel, Mode, ParseError, Polarity};
use crate::model::{case_views_of, lemma_case_views_push};
use crate::scan::{
    arrow_from, balanced, ident_end, ident_ok, lskip, split_top, str_lit_ok, trim, views_of, wraps,
};
use crate::scan::{
    balanced_check, enclosed_check, find_arrow, ident_check, is_ident_start_exec, scan_ident_end,
    skip_spaces, split_segments, subvec, trim_chars,
};
use vstd::prelude::*;

verus! {

/// A keyed clause: its key and its (trimmed) value text.
#[verifier::ext_equal]
pub struct KeyVal {
    pub key: Seq<char>,
    pub val: Seq<char>,
}

/// The keyword `name`.
pub open spec fn name_word() -> Seq<char> {
    seq!['n', 'a', 'm', 'e']
}

/// The keyword `input`.
pub open spec fn input_word() -> Seq<char> {
    seq!['i', 'n', 'p', 'u', 't']
}

/// The keyword `expect`.
pub open spec fn expect_word() -> Seq<char> {
    seq!['e', 'x', 'p', 'e', 'c', 't']
}

/// A segment whose trimmed text starts with an identifier followed by a
/// bare `=` is a keyed clause: key before the `=`, trimmed value after it.
/// `==` and `=>` after the identifier do not open a keyed clause.
pub open spec fn keyed_of(seg: Seq<char>) -> Option<KeyVal> {
    let t = trim(seg);
    if t.len() == 0 || !crate::scan::is_ident_start(t[0]) {
        None
    } else {
        let e = ident_end(t, 0);
        let p = lskip(t, e);
        if p < t.len() && t[p] == '=' && (p + 1 == t.len() || (t[p + 1] != '=' && t[p + 1]
            != '>')) {
            Some(KeyVal { key: t.subrange(0, e), val: trim(t.subrange(p + 1, t.len() as int)) })
        } else {
            None
        }
    }
}

/// The identifier inside a string literal, quotes stripped.
pub open spec fn name_of_lit(v: Seq<char>) -> Seq<char> {
    v.subrange(1, v.len() - 1)
}

/// The value of a `name` clause: a string literal whose content is a
/// well-formed identifier, used verbatim as the unit's name.
pub open spec fn parse_name_val(v: Seq<char>) -> Result<Seq<char>, ParseError> {
    if !str_lit_ok(v) {
        Err(ParseError::BadName)
    } else if !ident_ok(name_of_lit(v)) {
        Err(ParseError::BadName)
    } else {
        Ok(name_of_lit(v))
    }
}

/// The trimmed expressions of `parts[i..end]`; an empty position is a
/// syntax error.
pub open spec fn args_between(parts: Seq<Seq<char>>, i: int, end: int) -> Result<
    Seq<Seq<char>>,
    ParseError,
>
    decreases end - i,
{
    if i >= end {
        Ok(Seq::empty())
    } else if trim(parts[i]).len() == 0 {
        Err(ParseError::EmptyExpr)
    } else {
        match args_between(parts, i + 1, end) {
            Ok(rest) => Ok(seq![trim(parts[i])] + rest),
            Err(e) => Err(e),
        }
    }
}

/// One case: a value shape, `=>`, an expected expression. A parenthesized
/// value shape is a tuple of positional arguments; any other shape is one
/// argument. Exactly one top-level `=>` is allowed.
pub open spec fn parse_case_spec(seg: Seq<char>) -> Result<CaseModel, ParseError> {
    if !balanced(seg) {
        Err(ParseError::Unbalanced)
    } else {
        let j = arrow_from(seg, 0);
        if j == seg.len() as int {
            Err(ParseError::MissingArrow)
        } else if arrow_from(seg, j + 2) != seg.len() as int {
            Err(ParseError::TrailingTokens)
        } else {
            let left = trim(seg.subrange(0, j));
            let right = trim(seg.subrange(j + 2, seg.len() as int));
            if right.len() == 0 {
                Err(ParseError::EmptyExpr)
            } else if left.len() == 0 {
                Err(ParseError::EmptyExpr)
            } else if left[0] == '(' {
                if !wraps(left, '(') {
                    Err(ParseError::UnexpectedToken)
                } else {
                    let parts = split_top(left.subrange(1, left.len() - 1));
                    match args_between(parts, 0, parts.len() as int) {
                        Ok(args) => Ok(CaseModel { args, expected: right }),
                        Err(e) => Err(e),
                    }
                }
            } else {
                Ok(CaseModel { args: seq![left], expected: right })
            }
        }
    }
}

/// A case position: a keyed clause is not a case.
pub open spec fn case_at(seg: Seq<char>) -> Result<CaseModel, ParseError> {
    if keyed_of(seg) is Some {
        Err(ParseError::UnexpectedKey)
    } else {
        parse_case_spec(seg)
    }
}

/// The cases of `segs[i..end]`, in order, stopping at the first error.
pub open spec fn cases_between(segs: Seq<Seq<char>>, i: int, end: int) -> Result<
    Seq<CaseModel>,
    ParseError,
>
    decreases end - i,
{
    if i >= end {
        Ok(Seq::empty())
    } else {
        match case_at(segs[i]) {
            Err(e) => Err(e),
            Ok(c) => match cases_between(segs, i + 1, end) {
                Ok(rest) => Ok(seq![c] + rest),
                Err(e) => Err(e),
            },
        }
    }
}

/// The single-case grammar: an optional `name` clause, then exactly one
/// case.
pub open spec fn parse_single_spec(s: Seq<char>, pol: Polarity) -> Result<
    AnnotationModel,
    ParseError,
> {
    if !balanced(s) {
        Err(ParseError::Unbalanced)
    } else {
        let segs = split_top(s);
        match keyed_of(segs[0]) {
            Some(kv) => if kv.key != name_word() {
                Err(ParseError::UnexpectedKey)
            } else {
                match parse_name_val(kv.val) {
                    Err(e) => Err(e),
                    Ok(nm) => if segs.len() < 2 {
                        Err(ParseError::MissingCase)
                    } else if segs.len() > 2 {
                        Err(ParseError::TrailingTokens)
                    } else {
                        match case_at(segs[1]) {
                            Ok(c) => Ok(
                                AnnotationModel {
                                    name: Some(nm),
                                    mode: Mode::Single,
                                    polarity: pol,
                                    cases: seq![c],
                                },
                            ),
                            Err(e) => Err(e),
                        }
                    },
                }
            },
            None => if segs.len() > 1 {
                Err(ParseError::TrailingTokens)
            } else {
                match parse_case_spec(segs[0]) {
                    Ok(c) => Ok(
                        AnnotationModel {
                            name: None,
                            mode: Mode::Single,
                            polarity: pol,
                            cases: seq![c],
                        },
                    ),
                    Err(e) => Err(e),
                }
            },
        }
    }
}

/// The tail of the multi-case grammar: the cases from `segs[b..]`, one
/// trailing comma tolerated, at least one case required.
pub open spec fn multi_tail(
    segs: Seq<Seq<char>>,
    b: int,
    name: Option<Seq<char>>,
    pol: Polarity,
) -> Result<AnnotationModel, ParseError> {
    let n = segs.len() as int;
    let end = if n - b >= 2 && trim(segs[n - 1]).len() == 0 {
        n - 1
    } else {
        n
    };
    if end - b <= 0 || (end - b == 1 && trim(segs[b]).len() == 0) {
        Err(ParseError::MissingCase)
    } else {
        match cases_between(segs, b, end) {
            Ok(cs) => Ok(AnnotationModel { name, mode: Mode::Multi, polarity: pol, cases: cs }),
            Err(e) => Err(e),
        }
    }
}

/// The multi-case grammar: an optional `name` clause, then one or more
/// cases separated by commas.
pub open spec fn parse_multi_spec(s: Seq<char>, pol: Polarity) -> Result<
    AnnotationModel,
    ParseError,
> {
    if !balanced(s) {
        Err(ParseError::Unbalanced)
    } else {
        let segs = split_top(s);
        match keyed_of(segs[0]) {
            Some(kv) => if kv.key != name_word() {
                Err(ParseError::UnexpectedKey)
            } else {
                match parse_name_val(kv.val) {
                    Err(e) => Err(e),
                    Ok(nm) => multi_tail(segs, 1, Some(nm), pol),
                }
            },
            None => multi_tail(segs, 0, None, pol),
        }
    }
}

/// How a keyed value was written: one bare expression, or a bracketed list
/// of sibling expressions.
pub enum ShapeModel {
    Bare(Seq<char>),
    List(Seq<Seq<char>>),
}

/// The fields of the keyed grammar once every clause is read.
#[verifier::ext_equal]
pub struct FieldsModel {
    pub name: Option<Seq<char>>,
    pub input: ShapeModel,
    pub expect: ShapeModel,
}

/// A keyed value: bracketed means a list (trailing comma tolerated, empty
/// list allowed), anything else is one bare expression.
pub open spec fn shape_of(v: Seq<char>) -> Result<ShapeModel, ParseError> {
    if v.len() == 0 {
        Err(ParseError::EmptyExpr)
    } else if v[0] == '[' {
        if !wraps(v, '[') {
            Err(ParseError::UnexpectedToken)
        } else {
            let parts = split_top(v.subrange(1, v.len() - 1));
            if parts.len() == 1 && trim(parts[0]).len() == 0 {
                Ok(ShapeModel::List(Seq::empty()))
            } else {
                let end = if trim(parts[parts.len() - 1]).len() == 0 {
                    parts.len() - 1
                } else {
                    parts.len() as int
                };
                match args_between(parts, 0, end) {
                    Ok(items) => Ok(ShapeModel::List(items)),
                    Err(e) => Err(e),
                }
            }
        }
    } else {
        Ok(ShapeModel::Bare(v))
    }
}

/// Read the keyed clauses from `segs[i..]` into the three fields;
/// duplicate or unknown keys are errors, and `input` and `expect` are
/// required.
pub open spec fn fields_from(
    segs: Seq<Seq<char>>,
    i: int,
    name: Option<Seq<char>>,
    input: Option<ShapeModel>,
    expect: Option<ShapeModel>,
) -> Result<FieldsModel, ParseError>
    decreases segs.len() - i,
{
    if i >= segs.len() {
        match input {
            None => Err(ParseError::MissingInput),
            Some(iv) => match expect {
                None => Err(ParseError::MissingExpect),
                Some(ev) => Ok(FieldsModel { name, input: iv, expect: ev }),
            },
        }
    } else {
        match keyed_of(segs[i]) {
            None => Err(ParseError::ExpectedKey),
            Some(kv) => if kv.key == name_word() {
                if name is Some {
                    Err(ParseError::DuplicateKey)
                } else {
                    match parse_name_val(kv.val) {
                        Err(e) => Err(e),
                        Ok(nm) => fields_from(segs, i + 1, Some(nm), input, expect),
                    }
                }
            } else if kv.key == input_word() {
                if input is Some {
                    Err(ParseError::DuplicateKey)
                } else {
                    match shape_of(kv.val) {
                        Err(e) => Err(e),
                        Ok(sh) => fields_from(segs, i + 1, name, Some(sh), expect),
                    }
                }
            } else if kv.key == expect_word() {
                if expect is Some {
                    Err(ParseError::DuplicateKey)
                } else {
                    match shape_of(kv.val) {
                        Err(e) => Err(e),
                        Ok(sh) => fields_from(segs, i + 1, name, input, Some(sh)),
                    }
                }
            } else {
                Err(ParseError::UnrecognizedKey)
            },
        }
    }
}

/// Shape validation of the keyed grammar: bare with bare gives one case;
/// list with list of the same length gives one case per paired position;
/// lists of different lengths and mixed shapes are errors.
pub open spec fn keyed_cases(f: FieldsModel) -> Result<Seq<CaseModel>, ParseError> {
    match f.input {
        ShapeModel::Bare(iv) => match f.expect {
            ShapeModel::Bare(ev) => Ok(seq![CaseModel { args: seq![iv], expected: ev }]),
            ShapeModel::List(_) => Err(ParseError::MixedShapes),
        },
        ShapeModel::List(ivs) => match f.expect {
            ShapeModel::Bare(_) => Err(ParseError::MixedShapes),
            ShapeModel::List(evs) => if ivs.len() == evs.len() {
                Ok(
                    Seq::new(
                        ivs.len(),
                        |k: int| CaseModel { args: seq![ivs[k]], expected: evs[k] },
                    ),
                )
            } else {
                Err(
                    ParseError::ArityMismatch {
                        input_len: ivs.len() as usize,
                        expect_len: evs.len() as usize,
                    },
                )
            },
        },
    }
}

/// The keyed grammar: `name`, `input` and `expect` clauses in any order.
pub open spec fn parse_keyed_spec(s: Seq<char>) -> Result<AnnotationModel, ParseError> {
    if !balanced(s) {
        Err(ParseError::Unbalanced)
    } else {
        match fields_from(split_top(s), 0, None, None, None) {
            Err(e) => Err(e),
            Ok(f) => match keyed_cases(f) {
                Err(e) => Err(e),
                Ok(cs) => Ok(
                    AnnotationModel {
                        name: f.name,
                        mode: Mode::Keyed,
                        polarity: Polarity::ShouldPass,
                        cases: cs,
                    },
                ),
            },
        }
    }
}

fn word_is_name(key: &Vec<char>) -> (b: bool)
    ensures
        b == (key@ == name_word()),
{
    let r = key.len() == 4 && key[0] == 'n' && key[1] == 'a' && key[2] == 'm' && key[3] == 'e';
    proof {
        if r {
            assert(key@ =~= name_word());
        } else if key@ == name_word() {
            assert(key@.len() == 4);
            assert(key@[0] == 'n' && key@[1] == 'a' && key@[2] == 'm' && key@[3] == 'e');
        }
    }
    r
}

fn word_is_input(key: &Vec<char>) -> (b: bool)
    ensures
        b == (key@ == input_word()),
{
    let r = key.len() == 5 && key[0] == 'i' && key[1] == 'n' && key[2] == 'p' && key[3] == 'u'
        && key[4] == 't';
    proof {
        if r {
            assert(key@ =~= input_word());
        } else if key@ == input_word() {
            assert(key@.len() == 5);
            assert(key@[0] == 'i' && key@[1] == 'n' && key@[2] == 'p' && key@[3] == 'u' && key@[4]
                == 't');
        }
    }
    r
}

fn word_is_expect(key: &Vec<char>) -> (b: bool)
    ensures
        b == (key@ == expect_word()),
{
    let r = key.len() == 6 && key[0] == 'e' && key[1] == 'x' && key[2] == 'p' && key[3] == 'e'
        && key[4] == 'c' && key[5] == 't';
    proof {
        if r {
            assert(key@ =~= expect_word());
        } else if key@ == expect_word() {
            assert(key@.len() == 6);
            assert(key@[0] == 'e' && key@[1] == 'x' && key@[2] == 'p' && key@[3] == 'e' && key@[4]
                == 'c' && key@[5] == 't');
        }
    }
    r
}

/// Recognise a keyed clause `key = value` and hand back key and trimmed
/// value.
pub fn keyed_split(seg: &Vec<char>) -> (r: Option<(Vec<char>, Vec<char>)>)
    ensures
        match r {
            Some(kv) => keyed_of(seg@) == Some(KeyVal { key: kv.0@, val: kv.1@ }),
            None => keyed_of(seg@) == None::<KeyVal>,
        },
{
    let t = trim_chars(seg);
    if t.len() == 0 || !is_ident_start_exec(t[0]) {
        return None;
    }
    let e = scan_ident_end(&t, 0);
    let p = skip_spaces(&t, e);
    let n = t.len();
    if p < n && t[p] == '=' && (p + 1 == n || (t[p + 1] != '=' && t[p + 1] != '>')) {
        let key = subvec(&t, 0, e);
        let tail = subvec(&t, p + 1, n);
        let val = trim_chars(&tail);
        Some((key, val))
    } else {
        None
    }
}

/// Parse the value of a `name` clause.
pub fn parse_name_value(val: &Vec<char>) -> (r: Result<Vec<char>, ParseError>)
    ensures
        match r {
            Ok(nm) => parse_name_val(val@) == Ok::<Seq<char>, ParseError>(nm@),
            Err(e) => parse_name_val(val@) == Err::<Seq<char>, ParseError>(e),
        },
{
    let n = val.len();
    if n < 2 || val[0] != '"' || val[n - 1] != '"' || !enclosed_check(val) {
        return Err(ParseError::BadName);
    }
    let content = subvec(val, 1, n - 1);
    if !ident_check(&content) {
        return Err(ParseError::BadName);
    }
    Ok(content)
}

/// Trim the expressions of `parts[..end]`, rejecting empty positions.
pub fn parse_args(parts: &Vec<Vec<char>>, end: usize) -> (r: Result<Vec<Vec<char>>, ParseError>)
    requires
        end <= parts@.len(),
    ensures
        match r {
            Ok(a) => args_between(views_of(parts@), 0, end as int) == Ok::<_, ParseError>(
                views_of(a@),
            ),
            Err(e) => args_between(views_of(parts@), 0, end as int) == Err::<Seq<Seq<char>>, _>(e),
        },
{
    let ghost pv = views_of(parts@);
    let mut acc: Vec<Vec<char>> = Vec::new();
    let mut i: usize = 0;
    while i < end
        invariant
            i <= end <= parts@.len(),
            pv == views_of(parts@),
            match args_between(pv, i as int, end as int) {
                Ok(rest) => args_between(pv, 0, end as int) == Ok::<_, ParseError>(
                    views_of(acc@) + rest,
                ),
                Err(e) => args_between(pv, 0, end as int) == Err::<Seq<Seq<char>>, _>(e),
            },
        decreases end - i,
    {
        proof {
            assert(pv[i as int] == parts@[i as int]@);
        }
        let t = trim_chars(&parts[i]);
        if t.len() == 0 {
            proof {
                assert(args_between(pv, i as int, end as int) == Err::<Seq<Seq<char>>, _>(
                    ParseError::EmptyExpr,
                ));
            }
            return Err(ParseError::EmptyExpr);
        }
        proof {
            crate::scan::lemma_views_push(acc@, t);
        }
        let ghost accv = views_of(acc@);
        acc.push(t);
        proof {
            match args_between(pv, i + 1, end as int) {
                Ok(rest) => {
                    assert(args_between(pv, i as int, end as int) == Ok::<_, ParseError>(
                        seq![trim(pv[i as int])] + rest,
                    ));
                    assert(accv + (seq![t@] + rest) =~= accv.push(t@) + rest);
                },
                Err(e) => {
                    assert(args_between(pv, i as int, end as int) == Err::<Seq<Seq<char>>, _>(e));
                },
            }
        }
        i += 1;
    }
    proof {
        assert(views_of(acc@) + Seq::<Seq<char>>::empty() =~= views_of(acc@));
    }
    Ok(acc)
}

/// Copy of a character vector.
fn copy_chars(v: &Vec<char>) -> (r: Vec<char>)
    ensures
        r@ == v@,
{
    subvec(v, 0, v.len())
}

/// Parse one case.
pub fn parse_case(seg: &Vec<char>) -> (r: Result<Case, ParseError>)
    ensures
        case_result_view(r) == parse_case_spec(seg@),
{
    if !balanced_check(seg) {
        return Err(ParseError::Unbalanced);
    }
    let n = seg.len();
    let j = find_arrow(seg, 0);
    proof {
        crate::scan::lemma_arrow_bounds(seg@, 0);
    }
    if j == n {
        return Err(ParseError::MissingArrow);
    }
    let j2 = find_arrow(seg, j + 2);
    if j2 != n {
        return Err(ParseError::TrailingTokens);
    }
    let leftraw = subvec(seg, 0, j);
    let left = trim_chars(&leftraw);
    let rightraw = subvec(seg, j + 2, n);
    let right = trim_chars(&rightraw);
    if right.len() == 0 {
        return Err(ParseError::EmptyExpr);
    }
    if left.len() == 0 {
        return Err(ParseError::EmptyExpr);
    }
    if left[0] == '(' {
        let ln = left.len();
        if !(ln >= 2 && left[ln - 1] == ')' && enclosed_check(&left)) {
            return Err(ParseError::UnexpectedToken);
        }
        let interior = subvec(&left, 1, ln - 1);
        let (parts, _bal) = split_segments(&interior);
        match parse_args(&parts, parts.len()) {
            Ok(args) => {
                let c = Case { args, expected: right };
                proof {
                    assert(case_result_view(Ok(c)) == parse_case_spec(seg@));
                }
                Ok(c)
            },
            Err(e) => Err(e),
        }
    } else {
        let mut args: Vec<Vec<char>> = Vec::new();
        args.push(left);
        let c = Case { args, expected: right };
        proof {
            assert(c@.args =~= seq![trim(seg@.subrange(0, j as int))]);
        }
        Ok(c)
    }
}

/// Parse the single-case grammar.
pub fn parse_single(s: &Vec<char>, pol: Polarity) -> (r: Result<Annotation, ParseError>)
    ensures
        ann_result_view(r) == parse_single_spec(s@, pol),
{
    let (segs, bal) = split_segments(s);
    if !bal {
        return Err(ParseError::Unbalanced);
    }
    proof {
        assert(views_of(segs@)[0] == segs@[0]@);
    }
    match keyed_split(&segs[0]) {
        Some((key, val)) => {
            if !word_is_name(&key) {
                return Err(ParseError::UnexpectedKey);
            }
            match parse_name_value(&val) {
                Err(e) => Err(e),
                Ok(nm) => {
                    if segs.len() < 2 {
                        return Err(ParseError::MissingCase);
                    }
                    if segs.len() > 2 {
                        return Err(ParseError::TrailingTokens);
                    }
                    proof {
                        assert(views_of(segs@)[1] == segs@[1]@);
                    }
                    match keyed_split(&segs[1]) {
                        Some(_) => {
                            return Err(ParseError::UnexpectedKey);
                        },
                        None => {},
                    }
                    match parse_case(&segs[1]) {
                        Ok(c) => {
                            let mut cases: Vec<Case> = Vec::new();
                            cases.push(c);
                            let a = Annotation {
                                name: Some(nm),
                                mode: Mode::Single,
                                polarity: pol,
                                cases,
                            };
                            proof {
                                assert(a@.cases =~= seq![c@]);
                            }
                            Ok(a)
                        },
                        Err(e) => Err(e),
                    }
                },
            }
        },
        None => {
            if segs.len() > 1 {
                return Err(ParseError::TrailingTokens);
            }
            match parse_case(&segs[0]) {
                Ok(c) => {
                    let mut cases: Vec<Case> = Vec::new();
                    cases.push(c);
                    let a = Annotation { name: None, mode: Mode::Single, polarity: pol, cases };
                    proof {
                        assert(a@.cases =~= seq![c@]);
                    }
                    Ok(a)
                },
                Err(e) => Err(e),
            }
        },
    }
}

/// Parse the multi-case grammar.
pub fn parse_multi(s: &Vec<char>, pol: Polarity) -> (r: Result<Annotation, ParseError>)
    ensures
        ann_result_view(r) == parse_multi_spec(s@, pol),
{
    let (segs, bal) = split_segments(s);
    if !bal {
        return Err(ParseError::Unbalanced);
    }
    let ghost segv = views_of(segs@);
    proof {
        assert(segv[0] == segs@[0]@);
    }
    let mut name: Option<Vec<char>> = None;
    let mut b: usize = 0;
    match keyed_split(&segs[0]) {
        Some((key, val)) => {
            if !word_is_name(&key) {
                return Err(ParseError::UnexpectedKey);
            }
            match parse_name_value(&val) {
                Err(e) => {
                    return Err(e);
                },
                Ok(nm) => {
                    name = Some(nm);
                    b = 1;
                },
            }
        },
        None => {},
    }
    let n = segs.len();
    let mut end = n;
    if n - b >= 2 {
        proof {
            assert(segv[n - 1] == segs@[n - 1]@);
        }
        let lt = trim_chars(&segs[n - 1]);
        if lt.len() == 0 {
            end = n - 1;
        }
    }
    if end - b == 0 {
        return Err(ParseError::MissingCase);
    }
    if end - b == 1 {
        proof {
            assert(segv[b as int] == segs@[b as int]@);
        }
        let t0 = trim_chars(&segs[b]);
        if t0.len() == 0 {
            return Err(ParseError::MissingCase);
        }
    }
    let mut cases: Vec<Case> = Vec::new();
    let mut i: usize = b;
    while i < end
        invariant
            b <= i <= end <= segs@.len(),
            segv == views_of(segs@),
            match cases_between(segv, i as int, end as int) {
                Ok(rest) => cases_between(segv, b as int, end as int) == Ok::<_, ParseError>(
                    case_views_of(cases@) + rest,
                ),
                Err(e) => cases_between(segv, b as int, end as int) == Err::<Seq<CaseModel>, _>(e),
            },
        decreases end - i,
    {
        proof {
            assert(segv[i as int] == segs@[i as int]@);
        }
        match keyed_split(&segs[i]) {
            Some(_) => {
                proof {
                    assert(case_at(segv[i as int]) == Err::<CaseModel, _>(ParseError::UnexpectedKey));
                }
                return Err(ParseError::UnexpectedKey);
            },
            None => {},
        }
        match parse_case(&segs[i]) {
            Err(e) => {
                proof {
                    assert(case_at(segv[i as int]) == Err::<CaseModel, _>(e));
                }
                return Err(e);
            },
            Ok(c) => {
                proof {
                    lemma_case_views_push(cases@, c);
                }
                let ghost cv = case_views_of(cases@);
                cases.push(c);
                proof {
                    match cases_between(segv, i + 1, end as int) {
                        Ok(rest) => {
                            assert(cases_between(segv, i as int, end as int) == Ok::<
                                _,
                                ParseError,
                            >(seq![c@] + rest));
                            assert(cv + (seq![c@] + rest) =~= cv.push(c@) + rest);
                        },
                        Err(e) => {},
                    }
                }
            },
        }
        i += 1;
    }
    proof {
        assert(case_views_of(cases@) + Seq::<CaseModel>::empty() =~= case_views_of(cases@));
    }
    let a = Annotation { name, mode: Mode::Multi, polarity: pol, cases };
    Ok(a)
}

/// Executable form of a keyed value's shape.
pub enum Shape {
    Bare(Vec<char>),
    List(Vec<Vec<char>>),
}

/// Mathematical image of a `Shape`.
pub open spec fn shape_view(sh: Shape) -> ShapeModel {
    match sh {
        Shape::Bare(v) => ShapeModel::Bare(v@),
        Shape::List(vs) => ShapeModel::List(views_of(vs@)),
    }
}

pub open spec fn opt_chars_view(o: Option<Vec<char>>) -> Option<Seq<char>> {
    match o {
        Some(v) => Some(v@),
        None => None,
    }
}

pub open spec fn opt_shape_view(o: Option<Shape>) -> Option<ShapeModel> {
    match o {
        Some(sh) => Some(shape_view(sh)),
        None => None,
    }
}

/// Parse one keyed value into its shape.
fn shape_parse(val: &Vec<char>) -> (r: Result<Shape, ParseError>)
    ensures
        match r {
            Ok(sh) => shape_of(val@) == Ok::<_, ParseError>(shape_view(sh)),
            Err(e) => shape_of(val@) == Err::<ShapeModel, _>(e),
        },
{
    let n = val.len();
    if n == 0 {
        return Err(ParseError::EmptyExpr);
    }
    if val[0] == '[' {
        if !(n >= 2 && val[n - 1] == ']' && enclosed_check(val)) {
            return Err(ParseError::UnexpectedToken);
        }
        let interior = subvec(val, 1, n - 1);
        let (parts, _bal) = split_segments(&interior);
        proof {
            assert(views_of(parts@)[0] == parts@[0]@);
        }
        let pl = parts.len();
        let t0 = trim_chars(&parts[0]);
        if pl == 1 && t0.len() == 0 {
            let empty_list: Vec<Vec<char>> = Vec::new();
            proof {
                assert(views_of(empty_list@) =~= Seq::<Seq<char>>::empty());
            }
            return Ok(Shape::List(empty_list));
        }
        proof {
            assert(views_of(parts@)[pl - 1] == parts@[pl - 1]@);
        }
        let tlast = trim_chars(&parts[pl - 1]);
        let end = if tlast.len() == 0 {
            pl - 1
        } else {
            pl
        };
        match parse_args(&parts, end) {
            Ok(items) => Ok(Shape::List(items)),
            Err(e) => Err(e),
        }
    } else {
        Ok(Shape::Bare(copy_chars(val)))
    }
}

/// Parse the keyed grammar.
pub fn parse_keyed(s: &Vec<char>) -> (r: Result<Annotation, ParseError>)
    ensures
        ann_result_view(r) == parse_keyed_spec(s@),
{
    let (segs, bal) = split_segments(s);
    if !bal {
        return Err(ParseError::Unbalanced);
    }
    let ghost segv = views_of(segs@);
    let mut name: Option<Vec<char>> = None;
    let mut input: Option<Shape> = None;
    let mut expect: Option<Shape> = None;
    let mut i: usize = 0;
    while i < segs.len()
        invariant
            i <= segs@.len(),
            segv == views_of(segs@),
            fields_from(segv, 0, None, None, None) == fields_from(
                segv,
                i as int,
                opt_chars_view(name),
                opt_shape_view(input),
                opt_shape_view(expect),
            ),
        decreases segs@.len() - i,
    {
        proof {
            assert(segv[i as int] == segs@[i as int]@);
        }
        match keyed_split(&segs[i]) {
            None => {
                return Err(ParseError::ExpectedKey);
            },
            Some((key, val)) => {
                if word_is_name(&key) {
                    if name.is_some() {
                        return Err(ParseError::DuplicateKey);
                    }
                    match parse_name_value(&val) {
                        Err(e) => {
                            return Err(e);
                        },
                        Ok(nm) => {
                            name = Some(nm);
                        },
                    }
                } else if word_is_input(&key) {
                    if input.is_some() {
                        return Err(ParseError::DuplicateKey);
                    }
                    match shape_parse(&val) {
                        Err(e) => {
                            return Err(e);
                        },
                        Ok(sh) => {
                            input = Some(sh);
                        },
                    }
                } else if word_is_expect(&key) {
                    if expect.is_some() {
                        return Err(ParseError::DuplicateKey);
                    }
                    match shape_parse(&val) {
                        Err(e) => {
                            return Err(e);
                        },
                        Ok(sh) => {
                            expect = Some(sh);
                        },
                    }
                } else {
                    return Err(ParseError::UnrecognizedKey);
                }
            },
        }
        i += 1;
    }
    let inp = match input {
        Some(x) => x,
        None => {
            return Err(ParseError::MissingInput);
        },
    };
    let exp = match expect {
        Some(x) => x,
        None => {
            return Err(ParseError::MissingExpect);
        },
    };
    let ghost f = FieldsModel {
        name: opt_chars_view(name),
        input: shape_view(inp),
        expect: shape_view(exp),
    };
    proof {
        assert(fields_from(segv, 0, None, None, None) == Ok::<_, ParseError>(f));
    }
    let mut cases: Vec<Case> = Vec::new();
    match inp {
        Shape::Bare(iv) => {
            match exp {
                Shape::Bare(ev) => {
                    let mut args: Vec<Vec<char>> = Vec::new();
                    args.push(iv);
                    let c = Case { args, expected: ev };
                    proof {
                        assert(c@.args =~= seq![f.input->Bare_0]);
                    }
                    cases.push(c);
                    proof {
                        assert(case_views_of(cases@) =~= seq![c@]);
                    }
                },
                Shape::List(_) => {
                    return Err(ParseError::MixedShapes);
                },
            }
        },
        Shape::List(ivs) => {
            match exp {
                Shape::Bare(_) => {
                    return Err(ParseError::MixedShapes);
                },
                Shape::List(evs) => {
                    if ivs.len() != evs.len() {
                        return Err(
                            ParseError::ArityMismatch {
                                input_len: ivs.len(),
                                expect_len: evs.len(),
                            },
                        );
                    }
                    let ghost ivv = views_of(ivs@);
                    let ghost evv = views_of(evs@);
                    let m = ivs.len();
                    let mut k: usize = 0;
                    while k < m
                        invariant
                            k <= m,
                            m == ivs@.len() == evs@.len(),
                            ivv == views_of(ivs@),
                            evv == views_of(evs@),
                            case_views_of(cases@) == Seq::new(
                                k as nat,
                                |t: int| CaseModel { args: seq![ivv[t]], expected: evv[t] },
                            ),
                        decreases m - k,
                    {
                        proof {
                            assert(ivv[k as int] == ivs@[k as int]@);
                            assert(evv[k as int] == evs@[k as int]@);
                        }
                        let mut args: Vec<Vec<char>> = Vec::new();
                        args.push(copy_chars(&ivs[k]));
                        let c = Case { args, expected: copy_chars(&evs[k]) };
                        proof {
                            lemma_case_views_push(cases@, c);
                        }
                        cases.push(c);
                        proof {
                            assert(c@ =~~= (CaseModel {
                                args: seq![ivv[k as int]],
                                expected: evv[k as int],
                            }));
                            assert(case_views_of(cases@) =~~= Seq::new(
                                (k + 1) as nat,
                                |t: int| CaseModel { args: seq![ivv[t]], expected: evv[t] },
                            ));
                        }
                        k += 1;
                    }
                    proof {
                        assert(ivv.len() == evv.len());
                    }
                },
            }
        },
    }
    let a = Annotation { name, mode: Mode::Keyed, polarity: Polarity::ShouldPass, cases };
    proof {
        match keyed_cases(f) {
            Ok(cs) => {
                assert(a@.cases =~~= cs);
            },
            Err(_) => {},
        }
    }
    Ok(a)
}

/// The view of a parse result.
pub open spec fn ann_result_view(r: Result<Annotation, ParseError>) -> Result<
    AnnotationModel,
    ParseError,
> {
    match r {
        Ok(a) => Ok(a@),
        Err(e) => Err(e),
    }
}

/// The view of a case result.
pub open spec fn case_result_view(r: Result<Case, ParseError>) -> Result<CaseModel, ParseError> {
    match r {
        Ok(c) => Ok(c@),
        Err(e) => Err(e),
    }
}

} // verus!
