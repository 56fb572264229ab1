use testgen::model::{ParseError, Polarity, TargetFunction};
use testgen::{fail, fn_test, multi_fail, multi_pass, pass};

fn cs(s: &str) -> Vec<char> {
    s.chars().collect()
}

fn s_of(v: &Vec<char>) -> String {
    v.iter().collect()
}

fn target(ident: &str, decl: &str) -> TargetFunction {
    TargetFunction { ident: cs(ident), decl: cs(decl) }
}

fn add_one_target() -> TargetFunction {
    target("add_one", "fn add_one(n: i32) -> i32 { n + 1 }")
}

fn add_target() -> TargetFunction {
    target("add", "fn add(n: i32, m: i32) -> i32 { n + m }")
}

#[test]
fn pass_single_case() {
    let t = add_one_target();
    let r = pass(&cs("1 => 2"), &t).unwrap();
    assert_eq!(s_of(&r.unit.name), "add_one_test_pass");
    assert_eq!(r.unit.asserts.len(), 1);
    assert_eq!(s_of(&r.unit.asserts[0].call), "add_one(1)");
    assert_eq!(s_of(&r.unit.asserts[0].expected), "2");
    assert_eq!(r.unit.asserts[0].polarity, Polarity::ShouldPass);
    assert_eq!(s_of(&r.decl), "fn add_one(n: i32) -> i32 { n + 1 }");
}

#[test]
fn pass_renders_assert_eq() {
    let t = add_one_target();
    let r = pass(&cs("1 => 2"), &t).unwrap();
    let text = testgen::expand::render_expansion(&r);
    assert_eq!(
        s_of(&text),
        "fn add_one(n: i32) -> i32 { n + 1 }\n\n#[test]\nfn add_one_test_pass() {\n    assert_eq!(add_one(1), 2);\n}\n"
    );
}

#[test]
fn fail_single_case() {
    let t = add_one_target();
    let r = fail(&cs("1 => 1"), &t).unwrap();
    assert_eq!(s_of(&r.unit.name), "add_one_test_fail");
    assert_eq!(r.unit.asserts.len(), 1);
    assert_eq!(r.unit.asserts[0].polarity, Polarity::ShouldFail);
    let text = testgen::expand::render_unit(&r.unit);
    assert_eq!(
        s_of(&text),
        "#[test]\nfn add_one_test_fail() {\n    assert_ne!(add_one(1), 1);\n}\n"
    );
}

#[test]
fn pass_explicit_name_used_verbatim() {
    let t = add_one_target();
    let r = pass(&cs("name=\"turbofish\", 2 => 3"), &t).unwrap();
    assert_eq!(s_of(&r.unit.name), "turbofish");
    assert_eq!(s_of(&r.unit.asserts[0].call), "add_one(2)");
    assert_eq!(s_of(&r.unit.asserts[0].expected), "3");
}

#[test]
fn multi_fail_two_cases() {
    let t = add_one_target();
    let r = multi_fail(&cs("1 => 1, 2 => 2"), &t).unwrap();
    assert_eq!(s_of(&r.unit.name), "add_one_multitest_fail");
    assert_eq!(r.unit.asserts.len(), 2);
    assert_eq!(s_of(&r.unit.asserts[0].call), "add_one(1)");
    assert_eq!(s_of(&r.unit.asserts[0].expected), "1");
    assert_eq!(s_of(&r.unit.asserts[1].call), "add_one(2)");
    assert_eq!(s_of(&r.unit.asserts[1].expected), "2");
    assert_eq!(r.unit.asserts[0].polarity, Polarity::ShouldFail);
    assert_eq!(r.unit.asserts[1].polarity, Polarity::ShouldFail);
}

#[test]
fn multi_pass_tuple_arguments() {
    let t = add_target();
    let r = multi_pass(&cs("(1, 2) => 3, (3, 4) => 7"), &t).unwrap();
    assert_eq!(s_of(&r.unit.name), "add_multitest_pass");
    assert_eq!(r.unit.asserts.len(), 2);
    assert_eq!(s_of(&r.unit.asserts[0].call), "add(1, 2)");
    assert_eq!(s_of(&r.unit.asserts[0].expected), "3");
    assert_eq!(s_of(&r.unit.asserts[1].call), "add(3, 4)");
    assert_eq!(s_of(&r.unit.asserts[1].expected), "7");
}

#[test]
fn doubled_tuple_is_one_argument() {
    let t = add_target();
    let r = pass(&cs("((1, 2)) => 10"), &t).unwrap();
    assert_eq!(r.unit.asserts.len(), 1);
    assert_eq!(s_of(&r.unit.asserts[0].call), "add((1, 2))");
}

#[test]
fn multi_pass_trailing_comma_tolerated() {
    let t = add_one_target();
    let r = multi_pass(&cs("1 => 2, 2 => 3,"), &t).unwrap();
    assert_eq!(r.unit.asserts.len(), 2);
}

#[test]
fn multi_pass_named() {
    let t = add_one_target();
    let r = multi_pass(&cs("name=\"upbeat\", 1 => 2, 2 => 3"), &t).unwrap();
    assert_eq!(s_of(&r.unit.name), "upbeat");
    assert_eq!(r.unit.asserts.len(), 2);
}

#[test]
fn string_literal_comma_stays_one_argument() {
    let t = target("concat", "fn concat(s: &str) -> String { s.to_string() }");
    let r = pass(&cs("\"a,b\" => \"a,b\""), &t).unwrap();
    assert_eq!(r.unit.asserts.len(), 1);
    assert_eq!(s_of(&r.unit.asserts[0].call), "concat(\"a,b\")");
    assert_eq!(s_of(&r.unit.asserts[0].expected), "\"a,b\"");
}

#[test]
fn fn_test_paired_lists() {
    let t = add_one_target();
    let r = fn_test(&cs("input=[1,2], expect=[2,3]"), &t).unwrap();
    assert_eq!(s_of(&r.unit.name), "add_one_generated_test");
    assert_eq!(r.unit.asserts.len(), 2);
    assert_eq!(s_of(&r.unit.asserts[0].call), "add_one(1)");
    assert_eq!(s_of(&r.unit.asserts[0].expected), "2");
    assert_eq!(s_of(&r.unit.asserts[1].call), "add_one(2)");
    assert_eq!(s_of(&r.unit.asserts[1].expected), "3");
    assert_eq!(r.unit.asserts[0].polarity, Polarity::ShouldPass);
}

#[test]
fn fn_test_arity_mismatch_is_fatal() {
    let t = add_one_target();
    let r = fn_test(&cs("input=[1], expect=[2,3]"), &t);
    assert_eq!(r.err(), Some(ParseError::ArityMismatch { input_len: 1, expect_len: 2 }));
}

#[test]
fn fn_test_bare_pair() {
    let t = add_one_target();
    let r = fn_test(&cs("input=1, expect=2"), &t).unwrap();
    assert_eq!(r.unit.asserts.len(), 1);
    assert_eq!(s_of(&r.unit.asserts[0].call), "add_one(1)");
    assert_eq!(s_of(&r.unit.asserts[0].expected), "2");
}

#[test]
fn fn_test_keys_in_any_order_with_name() {
    let t = add_one_target();
    let r = fn_test(&cs("expect=[2], name=\"custom\", input=[1]"), &t).unwrap();
    assert_eq!(s_of(&r.unit.name), "custom");
    assert_eq!(r.unit.asserts.len(), 1);
}

#[test]
fn fn_test_empty_lists_emit_empty_unit() {
    let t = add_one_target();
    let r = fn_test(&cs("input=[], expect=[]"), &t).unwrap();
    assert_eq!(r.unit.asserts.len(), 0);
    let text = testgen::expand::render_unit(&r.unit);
    assert_eq!(s_of(&text), "#[test]\nfn add_one_generated_test() {\n}\n");
}

#[test]
fn fn_test_list_trailing_comma_tolerated() {
    let t = add_one_target();
    let r = fn_test(&cs("input=[1, 2,], expect=[2, 3,]"), &t).unwrap();
    assert_eq!(r.unit.asserts.len(), 2);
}

#[test]
fn fn_test_mixed_shapes_rejected() {
    let t = add_one_target();
    assert_eq!(fn_test(&cs("input=1, expect=[2]"), &t).err(), Some(ParseError::MixedShapes));
    assert_eq!(fn_test(&cs("input=[1], expect=2"), &t).err(), Some(ParseError::MixedShapes));
}

#[test]
fn fn_test_missing_fields_rejected() {
    let t = add_one_target();
    assert_eq!(fn_test(&cs("input=[1]"), &t).err(), Some(ParseError::MissingExpect));
    assert_eq!(fn_test(&cs("expect=[1]"), &t).err(), Some(ParseError::MissingInput));
}

#[test]
fn fn_test_unknown_and_duplicate_keys_rejected() {
    let t = add_one_target();
    assert_eq!(
        fn_test(&cs("should_fail=1, input=1, expect=2"), &t).err(),
        Some(ParseError::UnrecognizedKey)
    );
    assert_eq!(
        fn_test(&cs("input=1, input=2, expect=3"), &t).err(),
        Some(ParseError::DuplicateKey)
    );
}

#[test]
fn fn_test_clause_without_key_rejected() {
    let t = add_one_target();
    assert_eq!(fn_test(&cs("1 => 2"), &t).err(), Some(ParseError::ExpectedKey));
}

#[test]
fn missing_arrow_rejected() {
    let t = add_one_target();
    assert_eq!(pass(&cs("12"), &t).err(), Some(ParseError::MissingArrow));
}

#[test]
fn unbalanced_text_rejected() {
    let t = add_one_target();
    assert_eq!(pass(&cs("(1 => 2"), &t).err(), Some(ParseError::Unbalanced));
    assert_eq!(pass(&cs("\"a => 2"), &t).err(), Some(ParseError::Unbalanced));
    assert_eq!(pass(&cs("[1) => 2"), &t).err(), Some(ParseError::Unbalanced));
}

#[test]
fn single_with_extra_case_rejected() {
    let t = add_one_target();
    assert_eq!(pass(&cs("1 => 2, 3 => 4"), &t).err(), Some(ParseError::TrailingTokens));
}

#[test]
fn double_arrow_rejected() {
    let t = add_one_target();
    assert_eq!(pass(&cs("1 => 2 => 3"), &t).err(), Some(ParseError::TrailingTokens));
}

#[test]
fn group_followed_by_text_rejected() {
    let t = add_target();
    assert_eq!(pass(&cs("(1) + (2) => 3"), &t).err(), Some(ParseError::UnexpectedToken));
}

#[test]
fn empty_tuple_rejected() {
    let t = add_one_target();
    assert_eq!(pass(&cs("() => 1"), &t).err(), Some(ParseError::EmptyExpr));
}

#[test]
fn empty_expected_rejected() {
    let t = add_one_target();
    assert_eq!(pass(&cs("1 =>"), &t).err(), Some(ParseError::EmptyExpr));
}

#[test]
fn name_without_case_rejected() {
    let t = add_one_target();
    assert_eq!(pass(&cs("name=\"only\""), &t).err(), Some(ParseError::MissingCase));
    assert_eq!(multi_pass(&cs("name=\"only\""), &t).err(), Some(ParseError::MissingCase));
}

#[test]
fn bad_name_value_rejected() {
    let t = add_one_target();
    assert_eq!(pass(&cs("name=oops, 1 => 2"), &t).err(), Some(ParseError::BadName));
    assert_eq!(pass(&cs("name=\"has space\", 1 => 2"), &t).err(), Some(ParseError::BadName));
}

#[test]
fn keyed_clause_in_case_position_rejected() {
    let t = add_one_target();
    assert_eq!(
        multi_pass(&cs("1 => 2, input=3"), &t).err(),
        Some(ParseError::UnexpectedKey)
    );
    assert_eq!(pass(&cs("input=5 => 6"), &t).err(), Some(ParseError::UnexpectedKey));
}

#[test]
fn multi_without_cases_rejected() {
    let t = add_one_target();
    assert_eq!(multi_pass(&cs(""), &t).err(), Some(ParseError::MissingCase));
    assert_eq!(multi_pass(&cs("  "), &t).err(), Some(ParseError::MissingCase));
}

#[test]
fn equality_expression_is_not_a_keyed_clause() {
    let t = target("check", "fn check(b: bool) -> bool { b }");
    let r = pass(&cs("a == b => true"), &t).unwrap();
    assert_eq!(s_of(&r.unit.asserts[0].call), "check(a == b)");
    assert_eq!(s_of(&r.unit.asserts[0].expected), "true");
}

#[test]
fn expansion_is_deterministic() {
    let t = add_one_target();
    let a = pass(&cs("1 => 2"), &t).unwrap();
    let b = pass(&cs("1 => 2"), &t).unwrap();
    assert_eq!(
        s_of(&testgen::expand::render_expansion(&a)),
        s_of(&testgen::expand::render_expansion(&b))
    );
}

#[test]
fn multi_render_lists_cases_in_order() {
    let t = add_one_target();
    let r = multi_fail(&cs("1 => 1, 2 => 2, 3 => 3"), &t).unwrap();
    let text = testgen::expand::render_unit(&r.unit);
    assert_eq!(
        s_of(&text),
        "#[test]\nfn add_one_multitest_fail() {\n    assert_ne!(add_one(1), 1);\n    assert_ne!(add_one(2), 2);\n    assert_ne!(add_one(3), 3);\n}\n"
    );
}

#[test]
fn whitespace_around_tokens_is_ignored() {
    let t = add_one_target();
    let r = pass(&cs("   1   =>   2   "), &t).unwrap();
    assert_eq!(s_of(&r.unit.asserts[0].call), "add_one(1)");
    assert_eq!(s_of(&r.unit.asserts[0].expected), "2");
    let r2 = multi_pass(&cs(" name = \"spaced\" , 1 => 2 "), &t).unwrap();
    assert_eq!(s_of(&r2.unit.name), "spaced");
    assert_eq!(r2.unit.asserts.len(), 1);
}

#[test]
fn fn_test_name_must_be_string_literal() {
    let t = add_one_target();
    assert_eq!(
        fn_test(&cs("name=bare, input=1, expect=2"), &t).err(),
        Some(ParseError::BadName)
    );
}

#[test]
fn nested_brackets_inside_expressions_carry_through() {
    let t = target("pick", "fn pick(v: Vec<i32>) -> i32 { v[0] }");
    let r = pass(&cs("vec![3, 4] => 3"), &t).unwrap();
    assert_eq!(s_of(&r.unit.asserts[0].call), "pick(vec![3, 4])");
}
