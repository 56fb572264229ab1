//! Name resolution and case expansion: from a parsed annotation and the
//! target function's identifier to the generated test unit, and from the
//! unit to its rendered source text.

use crate::model::{
    Annotation, AnnotationModel, Assertion, AssertionModel, Expansion, ExpansionModel,
    GeneratedTestUnit, Mode, Polarity, TargetFunction, UnitModel,
};
use crate::model::{assertion_views_of, lemma_assertion_views_push};
use crate::scan::{append_chars, views_of};
use vstd::prelude::*;

verus! {

/// The suffix a derived name appends to the function's identifier.
pub open spec fn suffix_of(mode: Mode, pol: Polarity) -> Seq<char> {
    match mode {
        Mode::Single => match pol {
            Polarity::ShouldPass => seq!['_', 't', 'e', 's', 't', '_', 'p', 'a', 's', 's'],
            Polarity::ShouldFail => seq!['_', 't', 'e', 's', 't', '_', 'f', 'a', 'i', 'l'],
        },
        Mode::Multi => match pol {
            Polarity::ShouldPass => seq![
                '_',
                'm',
                'u',
                'l',
                't',
                'i',
                't',
                'e',
                's',
                't',
                '_',
                'p',
                'a',
                's',
                's',
            ],
            Polarity::ShouldFail => seq![
                '_',
                'm',
                'u',
                'l',
                't',
                'i',
                't',
                'e',
                's',
                't',
                '_',
                'f',
                'a',
                'i',
                'l',
            ],
        },
        Mode::Keyed => seq![
            '_',
            'g',
            'e',
            'n',
            'e',
            'r',
            'a',
            't',
            'e',
            'd',
            '_',
            't',
            'e',
            's',
            't',
        ],
    }
}

/// The unit's name: an explicit `name` is used verbatim; otherwise the
/// name is derived from the function's identifier and the grammar family.
pub open spec fn resolved_name(ann: AnnotationModel, f: Seq<char>) -> Seq<char> {
    match ann.name {
        Some(n) => n,
        None => f + suffix_of(ann.mode, ann.polarity),
    }
}

/// The arguments joined for a call: `a, b, c` after the first.
pub open spec fn join_tail(args: Seq<Seq<char>>, i: int) -> Seq<char>
    decreases args.len() - i,
{
    if i >= args.len() {
        Seq::empty()
    } else {
        seq![',', ' '] + args[i] + join_tail(args, i + 1)
    }
}

pub open spec fn join_args(args: Seq<Seq<char>>) -> Seq<char> {
    if args.len() == 0 {
        Seq::empty()
    } else {
        args[0] + join_tail(args, 1)
    }
}

/// The call expression of one case: the identifier, then the arguments
/// splatted positionally.
pub open spec fn call_text(f: Seq<char>, args: Seq<Seq<char>>) -> Seq<char> {
    f + seq!['('] + join_args(args) + seq![')']
}

/// The unit an annotation expands to: the resolved name, and one
/// assertion per case, in declaration order, all with the annotation's
/// polarity.
pub open spec fn unit_of(ann: AnnotationModel, f: Seq<char>) -> UnitModel {
    UnitModel {
        name: resolved_name(ann, f),
        asserts: Seq::new(
            ann.cases.len(),
            |i: int|
                AssertionModel {
                    call: call_text(f, ann.cases[i].args),
                    expected: ann.cases[i].expected,
                    polarity: ann.polarity,
                },
        ),
    }
}

/// The full model of one expansion: the declaration kept verbatim, and
/// the unit beside it.
pub open spec fn expansion_of(ann: AnnotationModel, t: crate::model::TargetModel) -> ExpansionModel {
    ExpansionModel { decl: t.decl, unit: unit_of(ann, t.ident) }
}

fn push_suffix(dst: &mut Vec<char>, mode: Mode, pol: Polarity)
    ensures
        final(dst)@ == old(dst)@ + suffix_of(mode, pol),
{
    match mode {
        Mode::Single => {
            dst.push('_');
            dst.push('t');
            dst.push('e');
            dst.push('s');
            dst.push('t');
            dst.push('_');
            match pol {
                Polarity::ShouldPass => {
                    dst.push('p');
                    dst.push('a');
                    dst.push('s');
                    dst.push('s');
                },
                Polarity::ShouldFail => {
                    dst.push('f');
                    dst.push('a');
                    dst.push('i');
                    dst.push('l');
                },
            }
        },
        Mode::Multi => {
            dst.push('_');
            dst.push('m');
            dst.push('u');
            dst.push('l');
            dst.push('t');
            dst.push('i');
            dst.push('t');
            dst.push('e');
            dst.push('s');
            dst.push('t');
            dst.push('_');
            match pol {
                Polarity::ShouldPass => {
                    dst.push('p');
                    dst.push('a');
                    dst.push('s');
                    dst.push('s');
                },
                Polarity::ShouldFail => {
                    dst.push('f');
                    dst.push('a');
                    dst.push('i');
                    dst.push('l');
                },
            }
        },
        Mode::Keyed => {
            dst.push('_');
            dst.push('g');
            dst.push('e');
            dst.push('n');
            dst.push('e');
            dst.push('r');
            dst.push('a');
            dst.push('t');
            dst.push('e');
            dst.push('d');
            dst.push('_');
            dst.push('t');
            dst.push('e');
            dst.push('s');
            dst.push('t');
        },
    }
    proof {
        assert(dst@ =~= old(dst)@ + suffix_of(mode, pol));
    }
}

/// Build the call expression text of one case.
fn build_call(f: &Vec<char>, args: &Vec<Vec<char>>) -> (r: Vec<char>)
    ensures
        r@ == call_text(f@, views_of(args@)),
{
    let ghost av = views_of(args@);
    let mut r: Vec<char> = Vec::new();
    append_chars(&mut r, f);
    r.push('(');
    proof {
        assert(r@ =~= f@ + seq!['(']);
    }
    let n = args.len();
    let ghost base = r@;
    let mut i: usize = 0;
    while i < n
        invariant
            i <= n,
            n == args@.len(),
            av == views_of(args@),
            base == f@ + seq!['('],
            i == 0 ==> r@ == base,
            i > 0 ==> r@ + join_tail(av, i as int) == base + join_args(av),
        decreases n - i,
    {
        proof {
            assert(av[i as int] == args@[i as int]@);
        }
        if i == 0 {
            append_chars(&mut r, &args[0]);
            proof {
                assert(r@ + join_tail(av, 1) =~= base + (av[0] + join_tail(av, 1)));
            }
        } else {
            r.push(',');
            r.push(' ');
            append_chars(&mut r, &args[i]);
            proof {
                assert(join_tail(av, i as int) == seq![',', ' '] + av[i as int] + join_tail(
                    av,
                    i + 1,
                ));
                assert(r@ + join_tail(av, i + 1) =~= (base + join_args(av)));
            }
        }
        i += 1;
    }
    proof {
        if n == 0 {
            assert(join_args(av) =~= Seq::<char>::empty());
            assert(r@ =~= base + join_args(av));
        } else {
            assert(join_tail(av, n as int) =~= Seq::<char>::empty());
            assert(r@ + Seq::<char>::empty() =~= r@);
        }
    }
    r.push(')');
    proof {
        assert(r@ =~= f@ + seq!['('] + join_args(av) + seq![')']);
    }
    r
}

/// Expand a parsed annotation against the target function: resolve the
/// name and generate one assertion per case, keeping the declaration
/// verbatim.
pub fn expand(ann: &Annotation, target: &TargetFunction) -> (r: Expansion)
    ensures
        r@ == expansion_of(ann@, target@),
{
    let name: Vec<char> = match &ann.name {
        Some(n) => crate::scan::subvec(n, 0, n.len()),
        None => {
            let mut v = crate::scan::subvec(&target.ident, 0, target.ident.len());
            push_suffix(&mut v, ann.mode, ann.polarity);
            v
        },
    };
    proof {
        assert(name@ == resolved_name(ann@, target@.ident));
    }
    let mut asserts: Vec<Assertion> = Vec::new();
    let n = ann.cases.len();
    let mut i: usize = 0;
    while i < n
        invariant
            i <= n,
            n == ann.cases@.len(),
            assertion_views_of(asserts@) == Seq::new(
                i as nat,
                |k: int|
                    AssertionModel {
                        call: call_text(target@.ident, ann@.cases[k].args),
                        expected: ann@.cases[k].expected,
                        polarity: ann@.polarity,
                    },
            ),
        decreases n - i,
    {
        proof {
            assert(ann@.cases[i as int] == ann.cases@[i as int]@);
        }
        let call = build_call(&target.ident, &ann.cases[i].args);
        let expected = crate::scan::subvec(&ann.cases[i].expected, 0, ann.cases[i].expected.len());
        let a = Assertion { call, expected, polarity: ann.polarity };
        proof {
            lemma_assertion_views_push(asserts@, a);
        }
        asserts.push(a);
        proof {
            assert(assertion_views_of(asserts@) =~~= Seq::new(
                (i + 1) as nat,
                |k: int|
                    AssertionModel {
                        call: call_text(target@.ident, ann@.cases[k].args),
                        expected: ann@.cases[k].expected,
                        polarity: ann@.polarity,
                    },
            ));
        }
        i += 1;
    }
    let unit = GeneratedTestUnit { name, asserts };
    let decl = crate::scan::subvec(&target.decl, 0, target.decl.len());
    let r = Expansion { decl, unit };
    proof {
        assert(r@ =~~= expansion_of(ann@, target@));
    }
    r
}

/// The text of one assertion line, indented inside the unit.
pub open spec fn assert_line(a: AssertionModel) -> Seq<char> {
    let head = match a.polarity {
        Polarity::ShouldPass => seq![
            ' ',
            ' ',
            ' ',
            ' ',
            'a',
            's',
            's',
            'e',
            'r',
            't',
            '_',
            'e',
            'q',
            '!',
            '(',
        ],
        Polarity::ShouldFail => seq![
            ' ',
            ' ',
            ' ',
            ' ',
            'a',
            's',
            's',
            'e',
            'r',
            't',
            '_',
            'n',
            'e',
            '!',
            '(',
        ],
    };
    head + a.call + seq![',', ' '] + a.expected + seq![')', ';', '\n']
}

/// The assertion lines of a unit, in order.
pub open spec fn assert_lines(xs: Seq<AssertionModel>, i: int) -> Seq<char>
    decreases xs.len() - i,
{
    if i >= xs.len() {
        Seq::empty()
    } else {
        assert_line(xs[i]) + assert_lines(xs, i + 1)
    }
}

/// The rendered unit: a test attribute, a function holding one assertion
/// per case.
pub open spec fn render_unit_text(u: UnitModel) -> Seq<char> {
    seq!['#', '[', 't', 'e', 's', 't', ']', '\n', 'f', 'n', ' '] + u.name + seq![
        '(',
        ')',
        ' ',
        '{',
        '\n',
    ] + assert_lines(u.asserts, 0) + seq!['}', '\n']
}

/// The rendered expansion: the original declaration, verbatim, then the
/// unit.
pub open spec fn render_expansion_text(e: ExpansionModel) -> Seq<char> {
    e.decl + seq!['\n', '\n'] + render_unit_text(e.unit)
}

fn push_assert_line(dst: &mut Vec<char>, a: &Assertion)
    ensures
        final(dst)@ == old(dst)@ + assert_line(a@),
{
    dst.push(' ');
    dst.push(' ');
    dst.push(' ');
    dst.push(' ');
    dst.push('a');
    dst.push('s');
    dst.push('s');
    dst.push('e');
    dst.push('r');
    dst.push('t');
    dst.push('_');
    match a.polarity {
        Polarity::ShouldPass => {
            dst.push('e');
            dst.push('q');
        },
        Polarity::ShouldFail => {
            dst.push('n');
            dst.push('e');
        },
    }
    dst.push('!');
    dst.push('(');
    append_chars(dst, &a.call);
    dst.push(',');
    dst.push(' ');
    append_chars(dst, &a.expected);
    dst.push(')');
    dst.push(';');
    dst.push('\n');
    proof {
        assert(dst@ =~= old(dst)@ + assert_line(a@));
    }
}

/// Render a generated unit as source text.
pub fn render_unit(u: &GeneratedTestUnit) -> (r: Vec<char>)
    ensures
        r@ == render_unit_text(u@),
{
    let mut r: Vec<char> = Vec::new();
    r.push('#');
    r.push('[');
    r.push('t');
    r.push('e');
    r.push('s');
    r.push('t');
    r.push(']');
    r.push('\n');
    r.push('f');
    r.push('n');
    r.push(' ');
    append_chars(&mut r, &u.name);
    r.push('(');
    r.push(')');
    r.push(' ');
    r.push('{');
    r.push('\n');
    let ghost head = r@;
    proof {
        assert(head =~= seq!['#', '[', 't', 'e', 's', 't', ']', '\n', 'f', 'n', ' '] + u@.name
            + seq!['(', ')', ' ', '{', '\n']);
    }
    let ghost xs = assertion_views_of(u.asserts@);
    let n = u.asserts.len();
    let mut i: usize = 0;
    while i < n
        invariant
            i <= n,
            n == u.asserts@.len(),
            xs == assertion_views_of(u.asserts@),
            r@ + assert_lines(xs, i as int) == head + assert_lines(xs, 0),
        decreases n - i,
    {
        proof {
            assert(xs[i as int] == u.asserts@[i as int]@);
        }
        push_assert_line(&mut r, &u.asserts[i]);
        proof {
            assert(assert_lines(xs, i as int) == assert_line(xs[i as int]) + assert_lines(
                xs,
                i + 1,
            ));
            assert(r@ + assert_lines(xs, i + 1) =~= head + assert_lines(xs, 0));
        }
        i += 1;
    }
    proof {
        assert(assert_lines(xs, n as int) =~= Seq::<char>::empty());
        assert(r@ =~= head + assert_lines(xs, 0));
    }
    r.push('}');
    r.push('\n');
    proof {
        assert(r@ =~= render_unit_text(u@));
    }
    r
}

/// Render a whole expansion: the declaration, a blank line, the unit.
pub fn render_expansion(e: &Expansion) -> (r: Vec<char>)
    ensures
        r@ == render_expansion_text(e@),
{
    let mut r = crate::scan::subvec(&e.decl, 0, e.decl.len());
    r.push('\n');
    r.push('\n');
    let u = render_unit(&e.unit);
    append_chars(&mut r, &u);
    proof {
        assert(r@ =~= render_expansion_text(e@));
    }
    r
}

} // verus!
