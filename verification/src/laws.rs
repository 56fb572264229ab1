//! The laws of the expansion pipeline, stated over the public models and
//! proved once and for all.

use crate::expand::{call_text, render_expansion_text, suffix_of, unit_of};
use crate::model::{AnnotationModel, AssertionModel, CaseModel, ExpansionModel, ParseError,
    Polarity, TargetModel};
use crate::parse::{
    FieldsModel, ShapeModel, args_between, case_at, cases_between, fields_from, keyed_cases,
    parse_case_spec, parse_keyed_spec, parse_multi_spec, parse_single_spec,
};
use crate::scan::{arrow_from, split_top, trim};
use crate::{keyed_model, multi_model, single_model};
use vstd::prelude::*;

verus! {

/// A successful single-case expansion emits exactly one assertion: the
/// call of the target on the case's arguments against the case's expected
/// expression, under the annotation's polarity.
pub proof fn lemma_single_assertion(s: Seq<char>, t: TargetModel, pol: Polarity)
    requires
        parse_single_spec(s, pol) is Ok,
    ensures
        single_model(s, t, pol) is Ok,
        ({
            let ann = parse_single_spec(s, pol)->Ok_0;
            let u = single_model(s, t, pol)->Ok_0.unit;
            &&& ann.polarity == pol
            &&& ann.cases.len() == 1
            &&& u.asserts.len() == 1
            &&& u.asserts[0] == (AssertionModel {
                call: call_text(t.ident, ann.cases[0].args),
                expected: ann.cases[0].expected,
                polarity: pol,
            })
        }),
{
}

/// A successful multi-case expansion with `k` cases emits exactly `k`
/// assertions, in declaration order, each pairing the call on the case's
/// arguments with that case's expected expression, all under the
/// annotation's polarity.
pub proof fn lemma_multi_assertions(s: Seq<char>, t: TargetModel, pol: Polarity)
    requires
        parse_multi_spec(s, pol) is Ok,
    ensures
        multi_model(s, t, pol) is Ok,
        ({
            let ann = parse_multi_spec(s, pol)->Ok_0;
            let u = multi_model(s, t, pol)->Ok_0.unit;
            &&& ann.polarity == pol
            &&& u.asserts.len() == ann.cases.len()
            &&& forall|i: int|
                0 <= i < ann.cases.len() ==> u.asserts[i] == (AssertionModel {
                    call: call_text(t.ident, ann.cases[i].args),
                    expected: ann.cases[i].expected,
                    polarity: pol,
                })
        }),
{
}

/// An explicit `name` is used verbatim as the unit's identifier.
pub proof fn lemma_explicit_name(ann: AnnotationModel, f: Seq<char>)
    requires
        ann.name is Some,
    ensures
        unit_of(ann, f).name == ann.name->0,
{
}

/// Without an explicit `name`, the identifier is derived from the target
/// function's identifier and the grammar family alone.
pub proof fn lemma_derived_name(ann: AnnotationModel, f: Seq<char>)
    requires
        ann.name is None,
    ensures
        unit_of(ann, f).name == f + suffix_of(ann.mode, ann.polarity),
{
}

/// Name resolution, and the whole expansion, are deterministic: two runs
/// over identical annotation text and an identical target agree exactly,
/// for each of the three grammars.
pub proof fn lemma_expansion_deterministic(
    s: Seq<char>,
    t: TargetModel,
    pol: Polarity,
    r1: Result<ExpansionModel, ParseError>,
    r2: Result<ExpansionModel, ParseError>,
)
    requires
        r1 == single_model(s, t, pol) || r1 == multi_model(s, t, pol) || r1 == keyed_model(s, t),
        r2 == single_model(s, t, pol) && r1 == single_model(s, t, pol) || r2 == multi_model(
            s,
            t,
            pol,
        ) && r1 == multi_model(s, t, pol) || r2 == keyed_model(s, t) && r1 == keyed_model(s, t),
    ensures
        r1 == r2,
{
}

/// Re-parsing and re-expanding the same annotation text against the same
/// target yields identical rendered output, byte for byte.
pub proof fn lemma_expansion_idempotent(
    s: Seq<char>,
    t: TargetModel,
    pol: Polarity,
    r1: Result<ExpansionModel, ParseError>,
    r2: Result<ExpansionModel, ParseError>,
)
    requires
        r1 == single_model(s, t, pol) && r2 == single_model(s, t, pol) || r1 == multi_model(
            s,
            t,
            pol,
        ) && r2 == multi_model(s, t, pol) || r1 == keyed_model(s, t) && r2 == keyed_model(s, t),
    ensures
        r1 == r2,
        r1 matches Ok(e1) ==> render_expansion_text(e1) == render_expansion_text(r2->Ok_0),
{
}

/// A tuple-shaped value of two positions expands to a call with two
/// positional arguments, rendered `f(x, y)`.
pub proof fn lemma_tuple_two_args(seg: Seq<char>, f: Seq<char>)
    requires
        parse_case_spec(seg) is Ok,
        ({
            let j = arrow_from(seg, 0);
            let left = trim(seg.subrange(0, j));
            left.len() > 0 && left[0] == '(' && split_top(left.subrange(1, left.len() - 1)).len()
                == 2
        }),
    ensures
        ({
            let j = arrow_from(seg, 0);
            let left = trim(seg.subrange(0, j));
            let parts = split_top(left.subrange(1, left.len() - 1));
            let c = parse_case_spec(seg)->Ok_0;
            &&& c.args.len() == 2
            &&& c.args[0] == trim(parts[0])
            &&& c.args[1] == trim(parts[1])
            &&& call_text(f, c.args) == f + seq!['('] + trim(parts[0]) + seq![',', ' '] + trim(
                parts[1],
            ) + seq![')']
        }),
{
    crate::scan::lemma_arrow_bounds(seg, 0);
    let j = arrow_from(seg, 0);
    let left = trim(seg.subrange(0, j));
    let parts = split_top(left.subrange(1, left.len() - 1));
    let c = parse_case_spec(seg)->Ok_0;
    assert(args_between(parts, 2, 2) == Ok::<Seq<Seq<char>>, ParseError>(Seq::empty()));
    assert(args_between(parts, 1, 2) == Ok::<Seq<Seq<char>>, ParseError>(
        seq![trim(parts[1])] + Seq::<Seq<char>>::empty(),
    ));
    assert(args_between(parts, 0, 2) == Ok::<Seq<Seq<char>>, ParseError>(
        seq![trim(parts[0])] + (seq![trim(parts[1])] + Seq::<Seq<char>>::empty()),
    ));
    assert(c.args =~= seq![trim(parts[0]), trim(parts[1])]);
    assert(crate::expand::join_tail(c.args, 2) == Seq::<char>::empty());
    assert(crate::expand::join_tail(c.args, 1) == seq![',', ' '] + c.args[1] + Seq::<
        char,
    >::empty());
    assert(crate::expand::join_args(c.args) == c.args[0] + (seq![',', ' '] + c.args[1] + Seq::<
        char,
    >::empty()));
    assert(call_text(f, c.args) =~= f + seq!['('] + trim(parts[0]) + seq![',', ' '] + trim(
        parts[1],
    ) + seq![')']);
}

/// A parenthesized value with no top-level comma inside — such as a
/// doubled tuple `((x, y))` — expands to a call with one argument whose
/// value is the whole inner expression.
pub proof fn lemma_tuple_single_group(seg: Seq<char>, f: Seq<char>)
    requires
        parse_case_spec(seg) is Ok,
        ({
            let j = arrow_from(seg, 0);
            let left = trim(seg.subrange(0, j));
            left.len() > 0 && left[0] == '(' && split_top(left.subrange(1, left.len() - 1)).len()
                == 1
        }),
    ensures
        ({
            let j = arrow_from(seg, 0);
            let left = trim(seg.subrange(0, j));
            let parts = split_top(left.subrange(1, left.len() - 1));
            let c = parse_case_spec(seg)->Ok_0;
            &&& c.args.len() == 1
            &&& c.args[0] == trim(parts[0])
            &&& call_text(f, c.args) == f + seq!['('] + trim(parts[0]) + seq![')']
        }),
{
    crate::scan::lemma_arrow_bounds(seg, 0);
    let j = arrow_from(seg, 0);
    let left = trim(seg.subrange(0, j));
    let parts = split_top(left.subrange(1, left.len() - 1));
    let c = parse_case_spec(seg)->Ok_0;
    assert(args_between(parts, 1, 1) == Ok::<Seq<Seq<char>>, ParseError>(Seq::empty()));
    assert(args_between(parts, 0, 1) == Ok::<Seq<Seq<char>>, ParseError>(
        seq![trim(parts[0])] + Seq::<Seq<char>>::empty(),
    ));
    assert(c.args =~= seq![trim(parts[0])]);
    assert(call_text(f, c.args) =~= f + seq!['('] + trim(parts[0]) + seq![')']);
}

/// Keyed lists of equal length `n` validate and pair strictly by index:
/// the `k`-th assertion calls the target on the `k`-th input against the
/// `k`-th expected value.
pub proof fn lemma_keyed_pairing(fm: FieldsModel)
    requires
        fm.input is List,
        fm.expect is List,
        fm.input->List_0.len() == fm.expect->List_0.len(),
    ensures
        keyed_cases(fm) is Ok,
        ({
            let ivs = fm.input->List_0;
            let evs = fm.expect->List_0;
            let cs = keyed_cases(fm)->Ok_0;
            &&& cs.len() == ivs.len()
            &&& forall|k: int|
                0 <= k < cs.len() ==> cs[k] == (CaseModel { args: seq![ivs[k]], expected: evs[k] })
        }),
{
}

/// Keyed lists of unequal lengths are rejected with the two lengths, and
/// the whole expansion fails: no unit is emitted.
pub proof fn lemma_keyed_arity_mismatch(s: Seq<char>, fm: FieldsModel, t: TargetModel)
    requires
        fields_from(split_top(s), 0, None, None, None) == Ok::<FieldsModel, ParseError>(fm),
        fm.input is List,
        fm.expect is List,
        fm.input->List_0.len() != fm.expect->List_0.len(),
    ensures
        keyed_cases(fm) == Err::<Seq<CaseModel>, ParseError>(
            ParseError::ArityMismatch {
                input_len: fm.input->List_0.len() as usize,
                expect_len: fm.expect->List_0.len() as usize,
            },
        ),
        keyed_model(s, t) is Err,
{
}

/// What a successful `args_between` hands back: one trimmed, non-empty
/// expression per position, in order.
pub proof fn lemma_args_between_props(parts: Seq<Seq<char>>, i: int, end: int)
    requires
        0 <= i <= end <= parts.len(),
        args_between(parts, i, end) is Ok,
    ensures
        ({
            let a = args_between(parts, i, end)->Ok_0;
            &&& a.len() == end - i
            &&& forall|k: int| 0 <= k < a.len() ==> a[k] == trim(parts[i + k]) && a[k].len() > 0
        }),
    decreases end - i,
{
    if i < end {
        lemma_args_between_props(parts, i + 1, end);
        let rest = args_between(parts, i + 1, end)->Ok_0;
        let a = args_between(parts, i, end)->Ok_0;
        assert(a == seq![trim(parts[i])] + rest);
        assert forall|k: int| 0 <= k < a.len() implies a[k] == trim(parts[i + k]) && a[k].len()
            > 0 by {
            if k > 0 {
                assert(a[k] == rest[k - 1]);
            }
        }
    }
}

/// The model invariant of a parsed case: the argument list is never
/// empty, and no argument or expected expression is empty.
pub proof fn lemma_parse_case_wf(seg: Seq<char>)
    requires
        parse_case_spec(seg) is Ok,
    ensures
        crate::model::case_wf(parse_case_spec(seg)->Ok_0),
{
    crate::scan::lemma_arrow_bounds(seg, 0);
    let j = arrow_from(seg, 0);
    let left = trim(seg.subrange(0, j));
    if left.len() > 0 && left[0] == '(' {
        let parts = split_top(left.subrange(1, left.len() - 1));
        crate::scan::lemma_split_nonempty(left.subrange(1, left.len() - 1), 0, 0);
        lemma_args_between_props(parts, 0, parts.len() as int);
    }
}

/// The cases of a parsed multi-case annotation all satisfy the case
/// invariant.
pub proof fn lemma_cases_between_wf(segs: Seq<Seq<char>>, i: int, end: int)
    requires
        0 <= i <= end <= segs.len(),
        cases_between(segs, i, end) is Ok,
    ensures
        ({
            let cs = cases_between(segs, i, end)->Ok_0;
            &&& cs.len() == end - i
            &&& forall|k: int| 0 <= k < cs.len() ==> crate::model::case_wf(cs[k])
        }),
    decreases end - i,
{
    if i < end {
        lemma_cases_between_wf(segs, i + 1, end);
        lemma_parse_case_wf(segs[i]);
        let rest = cases_between(segs, i + 1, end)->Ok_0;
        let cs = cases_between(segs, i, end)->Ok_0;
        assert(cs == seq![case_at(segs[i])->Ok_0] + rest);
        assert forall|k: int| 0 <= k < cs.len() implies crate::model::case_wf(cs[k]) by {
            if k > 0 {
                assert(cs[k] == rest[k - 1]);
            }
        }
    }
}

/// Every annotation the single-case or multi-case grammar accepts is
/// well formed: a single-case annotation has exactly one case, a
/// multi-case annotation at least one, and every case keeps the case
/// invariant.
pub proof fn lemma_parsed_annotation_wf(s: Seq<char>, pol: Polarity)
    ensures
        parse_single_spec(s, pol) matches Ok(ann) ==> ann.cases.len() == 1
            && crate::model::case_wf(ann.cases[0]),
        parse_multi_spec(s, pol) matches Ok(ann) ==> ann.cases.len() >= 1 && forall|k: int|
            0 <= k < ann.cases.len() ==> crate::model::case_wf(ann.cases[k]),
{
    if parse_single_spec(s, pol) is Ok {
        let segs = split_top(s);
        crate::scan::lemma_split_nonempty(s, 0, 0);
        match crate::parse::keyed_of(segs[0]) {
            Some(_) => {
                lemma_parse_case_wf(segs[1]);
            },
            None => {
                lemma_parse_case_wf(segs[0]);
            },
        }
    }
    if parse_multi_spec(s, pol) is Ok {
        let segs = split_top(s);
        crate::scan::lemma_split_nonempty(s, 0, 0);
        let b: int = match crate::parse::keyed_of(segs[0]) {
            Some(_) => 1,
            None => 0,
        };
        let n = segs.len() as int;
        let end = if n - b >= 2 && trim(segs[n - 1]).len() == 0 {
            n - 1
        } else {
            n
        };
        lemma_cases_between_wf(segs, b, end);
    }
}

/// A shape the keyed grammar accepts holds no empty expression.
pub open spec fn shape_wf(sh: ShapeModel) -> bool {
    match sh {
        ShapeModel::Bare(v) => v.len() > 0,
        ShapeModel::List(items) => forall|k: int| 0 <= k < items.len() ==> items[k].len() > 0,
    }
}

pub proof fn lemma_shape_of_wf(v: Seq<char>)
    requires
        crate::parse::shape_of(v) is Ok,
    ensures
        shape_wf(crate::parse::shape_of(v)->Ok_0),
{
    if v.len() > 0 && v[0] == '[' {
        let inner = v.subrange(1, v.len() - 1);
        let parts = split_top(inner);
        crate::scan::lemma_split_nonempty(inner, 0, 0);
        if !(parts.len() == 1 && trim(parts[0]).len() == 0) {
            let end = if trim(parts[parts.len() - 1]).len() == 0 {
                parts.len() - 1
            } else {
                parts.len() as int
            };
            lemma_args_between_props(parts, 0, end);
        }
    }
}

pub proof fn lemma_fields_from_wf(
    segs: Seq<Seq<char>>,
    i: int,
    nm: Option<Seq<char>>,
    inp: Option<ShapeModel>,
    exp: Option<ShapeModel>,
)
    requires
        0 <= i,
        fields_from(segs, i, nm, inp, exp) is Ok,
        inp matches Some(sh) ==> shape_wf(sh),
        exp matches Some(sh) ==> shape_wf(sh),
    ensures
        shape_wf(fields_from(segs, i, nm, inp, exp)->Ok_0.input),
        shape_wf(fields_from(segs, i, nm, inp, exp)->Ok_0.expect),
    decreases segs.len() - i,
{
    if i < segs.len() {
        match crate::parse::keyed_of(segs[i]) {
            None => {},
            Some(kv) => {
                if kv.key == crate::parse::name_word() {
                    lemma_fields_from_wf(
                        segs,
                        i + 1,
                        Some(crate::parse::parse_name_val(kv.val)->Ok_0),
                        inp,
                        exp,
                    );
                } else if kv.key == crate::parse::input_word() {
                    lemma_shape_of_wf(kv.val);
                    lemma_fields_from_wf(
                        segs,
                        i + 1,
                        nm,
                        Some(crate::parse::shape_of(kv.val)->Ok_0),
                        exp,
                    );
                } else if kv.key == crate::parse::expect_word() {
                    lemma_shape_of_wf(kv.val);
                    lemma_fields_from_wf(
                        segs,
                        i + 1,
                        nm,
                        inp,
                        Some(crate::parse::shape_of(kv.val)->Ok_0),
                    );
                }
            },
        }
    }
}

/// Every annotation the keyed grammar accepts is well formed: each case
/// has exactly one argument, and no argument or expected expression is
/// empty.
pub proof fn lemma_keyed_annotation_wf(s: Seq<char>)
    ensures
        parse_keyed_spec(s) matches Ok(ann) ==> forall|k: int|
            0 <= k < ann.cases.len() ==> crate::model::case_wf(ann.cases[k]),
{
    if parse_keyed_spec(s) is Ok {
        lemma_fields_from_wf(split_top(s), 0, None, None, None);
    }
}

/// An atomic expression text: letters, digits and underscores only, such
/// as a numeric literal or a bare identifier.
pub open spec fn atomic_expr(x: Seq<char>) -> bool {
    x.len() > 0 && forall|k: int| 0 <= k < x.len() ==> crate::scan::is_ident_char(#[trigger] x[k])
}

/// The single-case grammar on literal text: for any atomic expression
/// texts `a` and `b`, the annotation text `a => b` parses, and its unit
/// holds exactly one assertion comparing the call of the target on `a`
/// against `b`, under the requested polarity, with the derived name.
pub proof fn lemma_single_case_text(x: Seq<char>, y: Seq<char>, t: TargetModel, pol: Polarity)
    requires
        atomic_expr(x),
        atomic_expr(y),
    ensures
        ({
            let s = x + seq![' ', '=', '>', ' '] + y;
            let r = crate::single_model(s, t, pol);
            &&& r is Ok
            &&& r->Ok_0.decl == t.decl
            &&& r->Ok_0.unit.name == t.ident + suffix_of(crate::model::Mode::Single, pol)
            &&& r->Ok_0.unit.asserts.len() == 1
            &&& r->Ok_0.unit.asserts[0] == (AssertionModel {
                call: call_text(t.ident, seq![x]),
                expected: y,
                polarity: pol,
            })
        }),
{
    let s = x + seq![' ', '=', '>', ' '] + y;
    let xl = x.len() as int;
    let yl = y.len() as int;
    let sl = s.len() as int;
    assert(sl == xl + 4 + yl);
    assert forall|d: int| 0 <= d < sl implies crate::scan::plain_char(#[trigger] s[d]) by {
        if d < xl {
            assert(s[d] == x[d]);
        } else if d >= xl + 4 {
            assert(s[d] == y[d - xl - 4]);
        }
    }
    crate::scan::lemma_plain_states(s);
    assert(crate::scan::balanced(s));
    // one segment: nothing in `s` is a comma
    assert forall|k: int| 0 <= k < sl implies !(crate::scan::at_top(
        crate::scan::state_upto(s, k),
    ) && #[trigger] s[k] == ',') by {
        if k < xl {
            assert(s[k] == x[k]);
        } else if k >= xl + 4 {
            assert(s[k] == y[k - xl - 4]);
        }
    }
    crate::scan::lemma_split_one(s, 0, 0);
    assert(s.subrange(0, sl) =~= s);
    assert(split_top(s) == seq![s]);
    // exactly one arrow, at the separator
    assert(crate::scan::arrow_here(s, xl + 1));
    assert forall|k: int| 0 <= k < xl + 1 implies !crate::scan::arrow_here(s, k) by {
        if k < xl {
            assert(s[k] == x[k]);
        }
    }
    crate::scan::lemma_arrow_at(s, 0, xl + 1);
    assert forall|k: int| xl + 3 <= k < sl implies !crate::scan::arrow_here(s, k) by {
        if k >= xl + 4 {
            assert(s[k] == y[k - xl - 4]);
        }
    }
    crate::scan::lemma_arrow_none(s, xl + 3);
    // the case's two sides trim to the expressions themselves
    let leftraw = s.subrange(0, xl + 1);
    assert(leftraw =~= x + seq![' ']);
    crate::scan::lemma_lskip_of(leftraw, 0, 0);
    assert(leftraw[xl] == ' ');
    assert(leftraw[xl - 1] == x[xl - 1]);
    assert(crate::scan::rskip(leftraw, xl + 1) == crate::scan::rskip(leftraw, xl));
    assert(crate::scan::rskip(leftraw, xl) == xl);
    assert(trim(leftraw) =~= x);
    let rightraw = s.subrange(xl + 3, sl);
    assert(rightraw =~= seq![' '] + y);
    crate::scan::lemma_lskip_of(rightraw, 0, 1);
    assert(rightraw[yl] == y[yl - 1]);
    assert(crate::scan::rskip(rightraw, 1 + yl) == 1 + yl);
    assert(trim(rightraw) =~= y);
    assert(parse_case_spec(s) == Ok::<CaseModel, ParseError>(
        CaseModel { args: seq![x], expected: y },
    ));
    // the text is no keyed clause
    crate::scan::lemma_lskip_of(s, 0, 0);
    assert(s[sl - 1] == y[yl - 1]);
    assert(crate::scan::rskip(s, sl) == sl);
    assert(trim(s) =~= s);
    if crate::scan::is_ident_start(s[0]) {
        crate::scan::lemma_ident_end_of(s, 0, xl);
        crate::scan::lemma_lskip_of(s, xl, xl + 1);
        assert(s[xl + 2] == '>');
        assert(crate::parse::keyed_of(s) is None);
    } else {
        assert(crate::parse::keyed_of(s) is None);
    }
    // assemble
    let ann = parse_single_spec(s, pol)->Ok_0;
    assert(ann == (AnnotationModel {
        name: None,
        mode: crate::model::Mode::Single,
        polarity: pol,
        cases: seq![CaseModel { args: seq![x], expected: y }],
    }));
    assert(unit_of(ann, t.ident).asserts.len() == 1);
}

/// A word that opens and closes with non-spaces trims to itself, padded
/// or not.
pub proof fn lemma_trim_pad(w: Seq<char>)
    requires
        w.len() > 0,
        !crate::scan::is_space(w[0]),
        !crate::scan::is_space(w[w.len() - 1]),
    ensures
        trim(w) == w,
        trim(w + seq![' ']) == w,
        trim(seq![' '] + w) == w,
{
    let wl = w.len() as int;
    crate::scan::lemma_lskip_of(w, 0, 0);
    assert(crate::scan::rskip(w, wl) == wl);
    assert(trim(w) =~= w);
    let padr = w + seq![' '];
    assert(padr[0] == w[0] && padr[wl] == ' ' && padr[wl - 1] == w[wl - 1]);
    crate::scan::lemma_lskip_of(padr, 0, 0);
    assert(crate::scan::rskip(padr, wl + 1) == crate::scan::rskip(padr, wl));
    assert(crate::scan::rskip(padr, wl) == wl);
    assert(trim(padr) =~= w);
    let padl = seq![' '] + w;
    assert(padl[0] == ' ' && padl[1] == w[0] && padl[wl] == w[wl - 1]);
    crate::scan::lemma_lskip_of(padl, 0, 1);
    assert(crate::scan::rskip(padl, wl + 1) == wl + 1);
    assert(trim(padl) =~= w);
}

/// The left side `(a, b)` of a tuple case, taken alone: it wraps, its
/// interior splits into the two positions, and they trim to the two
/// expressions.
#[verifier::rlimit(100)]
pub proof fn lemma_tuple_left(x: Seq<char>, y: Seq<char>)
    requires
        atomic_expr(x),
        atomic_expr(y),
    ensures
        ({
            let left = seq!['('] + x + seq![',', ' '] + y + seq![')'];
            let parts = split_top(left.subrange(1, left.len() - 1));
            &&& crate::scan::wraps(left, '(')
            &&& parts == seq![x, seq![' '] + y]
            &&& args_between(parts, 0, 2) == Ok::<Seq<Seq<char>>, ParseError>(seq![x, y])
        }),
{
    let left = seq!['('] + x + seq![',', ' '] + y + seq![')'];
    let xl = x.len() as int;
    let yl = y.len() as int;
    let ll = xl + yl + 4;
    assert(left.len() == ll);
    assert(left[0] == '(');
    assert(forall|d: int| 0 <= d < xl ==> left[1 + d] == #[trigger] x[d]);
    assert(left[1 + xl] == ',');
    assert(left[2 + xl] == ' ');
    assert(forall|d: int| 0 <= d < yl ==> left[3 + xl + d] == #[trigger] y[d]);
    assert(left[ll - 1] == ')');
    let st1 = crate::scan::scan_step(crate::scan::init_scan(), '(');
    assert(st1.stack =~= seq![')']);
    assert(crate::scan::state_upto(left, 0) == crate::scan::init_scan());
    assert(crate::scan::state_upto(left, 1) == crate::scan::scan_step(
        crate::scan::state_upto(left, 0),
        left[0],
    ));
    assert(crate::scan::state_upto(left, 1) == st1);
    assert forall|d: int| 1 <= d < ll - 1 implies crate::scan::plain_char(
        #[trigger] left[d],
    ) by {
        if 1 <= d < 1 + xl {
            assert(left[d] == x[d - 1]);
        } else if 3 + xl <= d {
            assert(left[d] == y[d - 3 - xl]);
        }
    }
    crate::scan::lemma_plain_range(left, 1, ll - 1);
    assert(crate::scan::state_upto(left, ll - 1) == st1);
    assert(crate::scan::state_upto(left, ll) == crate::scan::scan_step(
        crate::scan::state_upto(left, ll - 1),
        left[ll - 1],
    ));
    assert(crate::scan::state_upto(left, ll).stack =~= Seq::<char>::empty());
    assert(crate::scan::state_upto(left, ll) =~~= crate::scan::init_scan());
    assert(crate::scan::balanced(left));
    assert forall|k: int| 0 < k < ll implies !crate::scan::at_top(
        #[trigger] crate::scan::state_upto(left, k),
    ) by {
        assert(crate::scan::state_upto(left, k) == st1);
    }
    assert(crate::scan::wraps(left, '('));
    let inner = left.subrange(1, ll - 1);
    assert(inner =~= x + seq![',', ' '] + y);
    let il = xl + 2 + yl;
    assert forall|d: int| 0 <= d < il implies crate::scan::plain_char(#[trigger] inner[d]) by {
        if d < xl {
            assert(inner[d] == x[d]);
        } else if xl + 2 <= d {
            assert(inner[d] == y[d - xl - 2]);
        }
    }
    crate::scan::lemma_plain_states(inner);
    assert forall|k: int| 0 <= k < xl implies !(crate::scan::at_top(
        crate::scan::state_upto(inner, k),
    ) && #[trigger] inner[k] == ',') by {
        assert(inner[k] == x[k]);
    }
    assert(inner[xl] == ',');
    crate::scan::lemma_split_first_comma(inner, 0, 0, xl);
    assert forall|k: int| xl + 1 <= k < il implies !(crate::scan::at_top(
        crate::scan::state_upto(inner, k),
    ) && #[trigger] inner[k] == ',') by {
        if xl + 2 <= k {
            assert(inner[k] == y[k - xl - 2]);
        }
    }
    crate::scan::lemma_split_one(inner, xl + 1, xl + 1);
    let parts = split_top(inner);
    assert(inner.subrange(0, xl) =~= x);
    assert(inner.subrange(xl + 1, il) =~= seq![' '] + y);
    assert(parts =~= seq![x, seq![' '] + y]);
    lemma_trim_pad(x);
    lemma_trim_pad(y);
    assert(args_between(parts, 2, 2) == Ok::<Seq<Seq<char>>, ParseError>(Seq::empty()));
    assert(args_between(parts, 1, 2) == Ok::<Seq<Seq<char>>, ParseError>(
        seq![y] + Seq::<Seq<char>>::empty(),
    ));
    assert(args_between(parts, 0, 2) == Ok::<Seq<Seq<char>>, ParseError>(
        seq![x] + (seq![y] + Seq::<Seq<char>>::empty()),
    ));
    assert(seq![x] + (seq![y] + Seq::<Seq<char>>::empty()) =~= seq![x, y]);
}

/// The scan facts of the tuple text `(a, b) => c`: balanced, one
/// segment, one arrow at the separator.
#[verifier::rlimit(100)]
proof fn lemma_tuple_scan(x: Seq<char>, y: Seq<char>, z: Seq<char>)
    requires
        atomic_expr(x),
        atomic_expr(y),
        atomic_expr(z),
    ensures
        ({
            let s = seq!['('] + x + seq![',', ' '] + y + seq![')', ' ', '=', '>', ' '] + z;
            let ll = x.len() as int + y.len() as int + 4;
            &&& crate::scan::balanced(s)
            &&& split_top(s) == seq![s]
            &&& arrow_from(s, 0) == ll + 1
            &&& arrow_from(s, ll + 3) == s.len() as int
        }),
{
    let s = seq!['('] + x + seq![',', ' '] + y + seq![')', ' ', '=', '>', ' '] + z;
    let left = seq!['('] + x + seq![',', ' '] + y + seq![')'];
    let xl = x.len() as int;
    let yl = y.len() as int;
    let zl = z.len() as int;
    let ll = xl + yl + 4;
    let sl = s.len() as int;
    assert(left.len() == ll);
    assert(sl == ll + 4 + zl);
    // the characters of `s`, region by region
    assert(s[0] == '(');
    assert(forall|d: int| 0 <= d < xl ==> s[1 + d] == #[trigger] x[d]);
    assert(s[1 + xl] == ',');
    assert(s[2 + xl] == ' ');
    assert(forall|d: int| 0 <= d < yl ==> s[3 + xl + d] == #[trigger] y[d]);
    assert(s[ll - 1] == ')');
    assert(s[ll] == ' ' && s[ll + 1] == '=' && s[ll + 2] == '>' && s[ll + 3] == ' ');
    assert(forall|d: int| 0 <= d < zl ==> s[ll + 4 + d] == #[trigger] z[d]);
    // scan states: one delimiter open strictly inside the tuple, the top
    // level everywhere after it
    let st1 = crate::scan::scan_step(crate::scan::init_scan(), '(');
    assert(st1.stack =~= seq![')']);
    assert(crate::scan::state_upto(s, 0) == crate::scan::init_scan());
    assert(crate::scan::state_upto(s, 1) == crate::scan::scan_step(
        crate::scan::state_upto(s, 0),
        s[0],
    ));
    assert(crate::scan::state_upto(s, 1) == st1);
    assert forall|d: int| 1 <= d < ll - 1 implies crate::scan::plain_char(#[trigger] s[d]) by {
        if 1 <= d < 1 + xl {
            assert(s[d] == x[d - 1]);
        } else if 3 + xl <= d {
            assert(s[d] == y[d - 3 - xl]);
        }
    }
    crate::scan::lemma_plain_range(s, 1, ll - 1);
    assert(crate::scan::state_upto(s, ll - 1) == st1);
    assert(crate::scan::state_upto(s, ll) == crate::scan::scan_step(
        crate::scan::state_upto(s, ll - 1),
        s[ll - 1],
    ));
    assert(crate::scan::state_upto(s, ll) == crate::scan::scan_step(st1, ')'));
    assert(crate::scan::state_upto(s, ll).stack =~= Seq::<char>::empty());
    assert(crate::scan::state_upto(s, ll) =~~= crate::scan::init_scan());
    assert forall|d: int| ll <= d < sl implies crate::scan::plain_char(#[trigger] s[d]) by {
        if ll + 4 <= d {
            assert(s[d] == z[d - ll - 4]);
        }
    }
    crate::scan::lemma_plain_range(s, ll, sl);
    assert(crate::scan::balanced(s));
    // no top-level comma: the only comma sits inside the tuple
    assert forall|k: int| 0 <= k < sl implies !(crate::scan::at_top(
        crate::scan::state_upto(s, k),
    ) && #[trigger] s[k] == ',') by {
        if 1 <= k < ll - 1 {
            assert(crate::scan::state_upto(s, k) == st1);
        } else if k == 0 {
        } else if k == ll - 1 {
            assert(crate::scan::state_upto(s, k) == st1);
        } else {
            if ll + 4 <= k {
                assert(s[k] == z[k - ll - 4]);
            }
        }
    }
    crate::scan::lemma_split_one(s, 0, 0);
    assert(s.subrange(0, sl) =~= s);
    // exactly one arrow, at the separator
    assert(crate::scan::arrow_here(s, ll + 1));
    assert forall|k: int| 0 <= k < ll + 1 implies !crate::scan::arrow_here(s, k) by {
        if 1 <= k < 1 + xl {
            assert(s[k] == x[k - 1]);
        } else if 3 + xl <= k < ll - 1 {
            assert(s[k] == y[k - 3 - xl]);
        }
    }
    crate::scan::lemma_arrow_at(s, 0, ll + 1);
    assert forall|k: int| ll + 3 <= k < sl implies !crate::scan::arrow_here(s, k) by {
        if ll + 4 <= k {
            assert(s[k] == z[k - ll - 4]);
        }
    }
    crate::scan::lemma_arrow_none(s, ll + 3);
}

/// The tuple shape on literal text: for atomic expression texts `a`, `b`
/// and `c`, the annotation text `(a, b) => c` parses as one case whose
/// call carries two positional arguments, rendered `f(a, b)`.
#[verifier::rlimit(100)]
pub proof fn lemma_tuple_case_text(x: Seq<char>, y: Seq<char>, z: Seq<char>, t: TargetModel)
    requires
        atomic_expr(x),
        atomic_expr(y),
        atomic_expr(z),
    ensures
        ({
            let s = seq!['('] + x + seq![',', ' '] + y + seq![')', ' ', '=', '>', ' '] + z;
            let r = parse_case_spec(s);
            &&& r is Ok
            &&& r->Ok_0.args == seq![x, y]
            &&& r->Ok_0.expected == z
            &&& call_text(t.ident, r->Ok_0.args) == t.ident + seq!['('] + x + seq![',', ' '] + y
                + seq![')']
        }),
{
    let s = seq!['('] + x + seq![',', ' '] + y + seq![')', ' ', '=', '>', ' '] + z;
    let left = seq!['('] + x + seq![',', ' '] + y + seq![')'];
    let xl = x.len() as int;
    let yl = y.len() as int;
    let zl = z.len() as int;
    let ll = xl + yl + 4;
    let sl = s.len() as int;
    assert(left.len() == ll);
    assert(sl == ll + 4 + zl);
    lemma_tuple_scan(x, y, z);
    assert(s[ll - 1] == ')');
    assert(forall|d: int| 0 <= d < zl ==> s[ll + 4 + d] == #[trigger] z[d]);
    // the left side trims to the tuple, the right side to the expected
    let leftraw = s.subrange(0, ll + 1);
    assert(leftraw =~= left + seq![' ']);
    assert(left[0] == '(' && left[ll - 1] == ')');
    lemma_trim_pad(left);
    assert(trim(leftraw) == left);
    let rightraw = s.subrange(ll + 3, sl);
    assert(rightraw =~= seq![' '] + z);
    lemma_trim_pad(z);
    assert(trim(rightraw) == z);
    // the left side is one wrapping tuple of the two positions
    lemma_tuple_left(x, y);
    assert(parse_case_spec(s) == Ok::<CaseModel, ParseError>(
        CaseModel { args: seq![x, y], expected: z },
    ));
    // the rendered call carries both arguments positionally
    let c = parse_case_spec(s)->Ok_0;
    assert(crate::expand::join_tail(c.args, 2) == Seq::<char>::empty());
    assert(crate::expand::join_tail(c.args, 1) == seq![',', ' '] + y + Seq::<char>::empty());
    assert(crate::expand::join_args(c.args) == x + (seq![',', ' '] + y + Seq::<char>::empty()));
    assert(call_text(t.ident, c.args) =~= t.ident + seq!['('] + x + seq![',', ' '] + y + seq![
        ')',
    ]);
}

/// The scan facts of the doubled-tuple text `((a, b)) => c`: balanced,
/// one segment, one arrow at the separator, and a left side that wraps.
#[verifier::rlimit(100)]
proof fn lemma_doubled_tuple_scan(x: Seq<char>, y: Seq<char>, z: Seq<char>)
    requires
        atomic_expr(x),
        atomic_expr(y),
        atomic_expr(z),
    ensures
        ({
            let s = seq!['(', '('] + x + seq![',', ' '] + y + seq![')', ')', ' ', '=', '>', ' ']
                + z;
            let left = seq!['(', '('] + x + seq![',', ' '] + y + seq![')', ')'];
            let ll = left.len() as int;
            &&& crate::scan::balanced(s)
            &&& split_top(s) == seq![s]
            &&& arrow_from(s, 0) == ll + 1
            &&& arrow_from(s, ll + 3) == s.len() as int
            &&& crate::scan::wraps(left, '(')
        }),
{
    let s = seq!['(', '('] + x + seq![',', ' '] + y + seq![')', ')', ' ', '=', '>', ' '] + z;
    let left = seq!['(', '('] + x + seq![',', ' '] + y + seq![')', ')'];
    let xl = x.len() as int;
    let yl = y.len() as int;
    let zl = z.len() as int;
    let ll = xl + yl + 6;
    let sl = s.len() as int;
    assert(left.len() == ll);
    assert(sl == ll + 4 + zl);
    // the characters of `s`, region by region
    assert(s[0] == '(' && s[1] == '(');
    assert(forall|d: int| 0 <= d < xl ==> s[2 + d] == #[trigger] x[d]);
    assert(s[2 + xl] == ',');
    assert(s[3 + xl] == ' ');
    assert(forall|d: int| 0 <= d < yl ==> s[4 + xl + d] == #[trigger] y[d]);
    assert(s[ll - 2] == ')' && s[ll - 1] == ')');
    assert(s[ll] == ' ' && s[ll + 1] == '=' && s[ll + 2] == '>' && s[ll + 3] == ' ');
    assert(forall|d: int| 0 <= d < zl ==> s[ll + 4 + d] == #[trigger] z[d]);
    // scan states: two delimiters open inside the pair, the top level
    // after the second close
    let st1 = crate::scan::scan_step(crate::scan::init_scan(), '(');
    let st2 = crate::scan::scan_step(st1, '(');
    assert(st1.stack =~= seq![')']);
    assert(st2.stack =~= seq![')', ')']);
    assert(crate::scan::state_upto(s, 0) == crate::scan::init_scan());
    assert(crate::scan::state_upto(s, 1) == crate::scan::scan_step(
        crate::scan::state_upto(s, 0),
        s[0],
    ));
    assert(crate::scan::state_upto(s, 2) == crate::scan::scan_step(
        crate::scan::state_upto(s, 1),
        s[1],
    ));
    assert(crate::scan::state_upto(s, 2) == st2);
    assert forall|d: int| 2 <= d < ll - 2 implies crate::scan::plain_char(#[trigger] s[d]) by {
        if 2 <= d < 2 + xl {
            assert(s[d] == x[d - 2]);
        } else if 4 + xl <= d {
            assert(s[d] == y[d - 4 - xl]);
        }
    }
    crate::scan::lemma_plain_range(s, 2, ll - 2);
    assert(crate::scan::state_upto(s, ll - 2) == st2);
    assert(crate::scan::state_upto(s, ll - 1) == crate::scan::scan_step(
        crate::scan::state_upto(s, ll - 2),
        s[ll - 2],
    ));
    assert(crate::scan::state_upto(s, ll - 1).stack =~= seq![')']);
    assert(crate::scan::state_upto(s, ll - 1) =~~= st1);
    assert(crate::scan::state_upto(s, ll) == crate::scan::scan_step(
        crate::scan::state_upto(s, ll - 1),
        s[ll - 1],
    ));
    assert(crate::scan::state_upto(s, ll).stack =~= Seq::<char>::empty());
    assert(crate::scan::state_upto(s, ll) =~~= crate::scan::init_scan());
    assert forall|d: int| ll <= d < sl implies crate::scan::plain_char(#[trigger] s[d]) by {
        if ll + 4 <= d {
            assert(s[d] == z[d - ll - 4]);
        }
    }
    crate::scan::lemma_plain_range(s, ll, sl);
    assert(crate::scan::balanced(s));
    // no top-level comma: the only comma sits two levels down
    assert forall|k: int| 0 <= k < sl implies !(crate::scan::at_top(
        crate::scan::state_upto(s, k),
    ) && #[trigger] s[k] == ',') by {
        if 2 <= k < ll - 2 {
            assert(crate::scan::state_upto(s, k) == st2);
        } else if k == 1 {
            assert(crate::scan::state_upto(s, k) == st1);
        } else if k == ll - 2 {
            assert(crate::scan::state_upto(s, k) == st2);
        } else if k == ll - 1 {
            assert(crate::scan::state_upto(s, k).stack =~= seq![')']);
        } else if ll + 4 <= k {
            assert(s[k] == z[k - ll - 4]);
        }
    }
    crate::scan::lemma_split_one(s, 0, 0);
    assert(s.subrange(0, sl) =~= s);
    // exactly one arrow, at the separator
    assert(crate::scan::arrow_here(s, ll + 1));
    assert forall|k: int| 0 <= k < ll + 1 implies !crate::scan::arrow_here(s, k) by {
        if 2 <= k < 2 + xl {
            assert(s[k] == x[k - 2]);
        } else if 4 + xl <= k < ll - 2 {
            assert(s[k] == y[k - 4 - xl]);
        }
    }
    crate::scan::lemma_arrow_at(s, 0, ll + 1);
    assert forall|k: int| ll + 3 <= k < sl implies !crate::scan::arrow_here(s, k) by {
        if ll + 4 <= k {
            assert(s[k] == z[k - ll - 4]);
        }
    }
    crate::scan::lemma_arrow_none(s, ll + 3);
    // the left side wraps once
    assert forall|k: int| 0 <= k <= ll implies #[trigger] crate::scan::state_upto(left, k)
        == crate::scan::state_upto(s, k) by {
        crate::scan::lemma_state_prefix(left, s, k);
    }
    assert(crate::scan::balanced(left));
    assert forall|k: int| 0 < k < ll implies !crate::scan::at_top(
        #[trigger] crate::scan::state_upto(left, k),
    ) by {
        if 2 <= k < ll - 2 {
            assert(crate::scan::state_upto(s, k) == st2);
        } else if k == 1 {
            assert(crate::scan::state_upto(s, k) == st1);
        } else if k == ll - 2 {
            assert(crate::scan::state_upto(s, k) == st2);
        } else {
            assert(crate::scan::state_upto(s, k).stack =~= seq![')']);
        }
    }
    assert(crate::scan::wraps(left, '('));
}

/// The doubled tuple on literal text: for atomic expression texts `a`,
/// `b` and `c`, the annotation text `((a, b)) => c` parses as one case
/// with a single argument whose value is the whole pair, rendered
/// `f((a, b))` — distinguishable from the two-argument `(a, b) => c`.
#[verifier::rlimit(100)]
pub proof fn lemma_doubled_tuple_case_text(x: Seq<char>, y: Seq<char>, z: Seq<char>, t: TargetModel)
    requires
        atomic_expr(x),
        atomic_expr(y),
        atomic_expr(z),
    ensures
        ({
            let pair = seq!['('] + x + seq![',', ' '] + y + seq![')'];
            let s = seq!['(', '('] + x + seq![',', ' '] + y + seq![')', ')', ' ', '=', '>', ' ']
                + z;
            let r = parse_case_spec(s);
            &&& r is Ok
            &&& r->Ok_0.args == seq![pair]
            &&& r->Ok_0.expected == z
            &&& call_text(t.ident, r->Ok_0.args) == t.ident + seq!['('] + pair + seq![')']
        }),
{
    let pair = seq!['('] + x + seq![',', ' '] + y + seq![')'];
    let s = seq!['(', '('] + x + seq![',', ' '] + y + seq![')', ')', ' ', '=', '>', ' '] + z;
    let left = seq!['(', '('] + x + seq![',', ' '] + y + seq![')', ')'];
    let xl = x.len() as int;
    let yl = y.len() as int;
    let zl = z.len() as int;
    let ll = xl + yl + 6;
    let sl = s.len() as int;
    assert(left.len() == ll);
    assert(sl == ll + 4 + zl);
    lemma_doubled_tuple_scan(x, y, z);
    assert(forall|d: int| 0 <= d < zl ==> s[ll + 4 + d] == #[trigger] z[d]);
    // the left side trims to the doubled tuple, the right side to the
    // expected expression
    let leftraw = s.subrange(0, ll + 1);
    assert(leftraw =~= left + seq![' ']);
    assert(left[0] == '(' && left[ll - 1] == ')');
    lemma_trim_pad(left);
    assert(trim(leftraw) == left);
    let rightraw = s.subrange(ll + 3, sl);
    assert(rightraw =~= seq![' '] + z);
    lemma_trim_pad(z);
    assert(trim(rightraw) == z);
    let inner = left.subrange(1, ll - 1);
    assert(inner =~= pair);
    // the pair wraps on its own, so its interior comma is nested: the
    // pair is one undivided position
    lemma_tuple_left(x, y);
    assert(crate::scan::wraps(pair, '('));
    assert forall|k: int| 0 <= k < pair.len() implies !(crate::scan::at_top(
        crate::scan::state_upto(pair, k),
    ) && #[trigger] pair[k] == ',') by {
        if k == 0 {
            assert(pair[0] == '(');
        }
    }
    crate::scan::lemma_split_one(pair, 0, 0);
    assert(pair.subrange(0, pair.len() as int) =~= pair);
    assert(split_top(pair) == seq![pair]);
    assert(pair[0] == '(' && pair[pair.len() - 1] == ')');
    lemma_trim_pad(pair);
    let parts = split_top(inner);
    assert(parts == seq![pair]);
    assert(args_between(parts, 1, 1) == Ok::<Seq<Seq<char>>, ParseError>(Seq::empty()));
    assert(args_between(parts, 0, 1) == Ok::<Seq<Seq<char>>, ParseError>(
        seq![pair] + Seq::<Seq<char>>::empty(),
    ));
    assert(seq![pair] + Seq::<Seq<char>>::empty() =~= seq![pair]);
    assert(parse_case_spec(s) == Ok::<CaseModel, ParseError>(
        CaseModel { args: seq![pair], expected: z },
    ));
    // the rendered call carries the pair as its single argument
    let c = parse_case_spec(s)->Ok_0;
    assert(crate::expand::join_tail(c.args, 1) == Seq::<char>::empty());
    assert(crate::expand::join_args(c.args) == pair + Seq::<char>::empty());
    assert(call_text(t.ident, c.args) =~= t.ident + seq!['('] + pair + seq![')']);
}

/// Emission is additive: the rendered expansion opens with the original
/// declaration, verbatim and unmodified, before the generated unit.
pub proof fn lemma_emission_additive(e: ExpansionModel)
    ensures
        render_expansion_text(e).len() >= e.decl.len(),
        render_expansion_text(e).subrange(0, e.decl.len() as int) == e.decl,
{
    assert(render_expansion_text(e).subrange(0, e.decl.len() as int) =~= e.decl);
}

} // verus!
