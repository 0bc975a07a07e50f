use std::cell::Cell;

use comp_macro::grammar::{parse_comp, parse_conditions, CompError, ErrorKind};
use comp_macro::pipeline::{comprehend, qualifies};
use comp_macro::expand;
use comp_macro::token::{is_keyword, render, Tok};
use proc_macro2::{Spacing, TokenStream, TokenTree};

fn toks(src: &str) -> Vec<Tok> {
    let ts: TokenStream = src.parse().expect("input lexes");
    ts.into_iter()
        .map(|tt| {
            let joint = matches!(&tt, TokenTree::Punct(p) if p.spacing() == Spacing::Joint);
            Tok::new(tt.to_string(), joint)
        })
        .collect()
}

fn lower(src: &str) -> String {
    expand(&toks(src)).expect("input parses")
}

/// The two texts lex into the same tokens.
fn same_tokens(a: &str, b: &str) -> bool {
    let a: proc_macro2::TokenStream = a.parse().unwrap();
    let b: proc_macro2::TokenStream = b.parse().unwrap();
    a.to_string() == b.to_string()
}

fn stage(iter: &str, pat: &str, guard: &str, body: &str) -> String {
    format!(
        "::core::iter::IntoIterator::into_iter({}).flat_map(move |{}| (if {} {{ ::core::option::Option::Some({}) }} else {{ ::core::option::Option::None }}))",
        iter, pat, guard, body
    )
}

fn always(_k: usize, _x: &i32) -> bool {
    true
}

struct TestVal {
    x: u32,
    y: String,
    z: Option<u32>,
}

impl TestVal {
    fn new(x: u32, y: String, z: Option<u32>) -> Self {
        Self { x, y, z }
    }
}

struct SignedTestVal {
    x: u32,
    y: String,
    z: Option<i16>,
}

impl SignedTestVal {
    fn new(x: u32, y: String, z: Option<i16>) -> Self {
        Self { x, y, z }
    }
}

#[test]
fn simple_map() {
    let out = lower("x for x in [1, 2, 3]");
    assert!(same_tokens(&out, &stage("[1, 2, 3]", "x", "true", "x")));
    assert!(syn::parse_str::<syn::Expr>(&out).is_ok());
    let result = comprehend(&vec![1, 2, 3], 0, &always, &|x: &i32| *x);
    assert_eq!(result, [1, 2, 3]);
}

#[test]
fn map_arithmetic() {
    // addition
    assert!(same_tokens(&lower("x + 2 for x in [-1, 2, 10]"), &stage("[-1, 2, 10]", "x", "true", "x + 2")));
    let result = comprehend(&vec![-1, 2, 10], 0, &always, &|x: &i32| x + 2);
    assert_eq!(result, [1, 4, 12]);
    // subtraction
    assert!(same_tokens(&lower("x - (5 * 2) for x in [10, 2, 20]"), &stage("[10, 2, 20]", "x", "true", "x - (5 * 2)")));
    let result = comprehend(&vec![10, 2, 20], 0, &always, &|x: &i32| x - (5 * 2));
    assert_eq!(result, [0, -8, 10]);
    // multiplication
    assert!(same_tokens(&lower("6 * n for n in vec![2, -5, 0]"), &stage("vec![2, -5, 0]", "n", "true", "6 * n")));
    let result = comprehend(&vec![2, -5, 0], 0, &always, &|n: &i32| 6 * n);
    assert_eq!(result, [12, -30, 0]);
    // division
    assert!(same_tokens(&lower("100. / n for n in vec![0.5, 10., 50.]"), &stage("vec![0.5, 10., 50.]", "n", "true", "100. / n")));
    let result = comprehend(&vec![0.5, 10., 50.], 0, &|_k: usize, _n: &f64| true, &|n: &f64| 100. / n);
    assert_eq!(result, [200., 10., 2.]);
}

#[test]
fn complex_pattern_matching() {
    // tuple
    let out = lower("x * y for (x, y) in vec![(1, 0), (2, 4), (10, -3)]");
    assert!(same_tokens(&out, &stage("vec![(1, 0), (2, 4), (10, -3)]", "(x, y)", "true", "x * y")));
    let result = comprehend(
        &vec![(1, 0), (2, 4), (10, -3)],
        0,
        &|_k: usize, _p: &(i32, i32)| true,
        &|&(x, y): &(i32, i32)| x * y,
    );
    assert_eq!(result, vec![0, 8, -30]);
    // struct
    let out = lower("x + y.parse::<u32>().unwrap() + z.unwrap_or(0) for TestVal { x, y, z } in vals");
    assert!(same_tokens(
        &out,
        &stage("vals", "TestVal { x, y, z }", "true", "x + y.parse::<u32>().unwrap() + z.unwrap_or(0)")
    ));
    let vals = vec![
        TestVal::new(1, "40".to_string(), None),
        TestVal::new(3, "13".to_string(), Some(17)),
    ];
    let result = comprehend(&vals, 0, &|_k: usize, _v: &TestVal| true, &|TestVal { x, y, z }: &TestVal| {
        x + y.parse::<u32>().unwrap() + z.unwrap_or(0)
    });
    assert_eq!(result, vec![41, 33]);
}

#[test]
fn comprehend_strings() {
    let strings = vec!["file1".to_string(), "my_name".to_string()];
    let yes = |_k: usize, _s: &String| true;
    // concat
    let out = lower("String::new() + s + \"_suffix\" for s in &strings");
    assert!(same_tokens(&out, &stage("&strings", "s", "true", "String::new() + s + \"_suffix\"")));
    let result = comprehend(&strings, 0, &yes, &|s: &String| String::new() + s + "_suffix");
    assert_eq!(result, vec!["file1_suffix".to_string(), "my_name_suffix".to_string()]);
    // len
    assert!(same_tokens(&lower("s.len() for s in &strings"), &stage("&strings", "s", "true", "s.len()")));
    let result = comprehend(&strings, 0, &yes, &|s: &String| s.len());
    assert_eq!(result, vec![strings[0].len(), strings[1].len()]);
    // both
    assert!(same_tokens(
        &lower("(String::new() + s + \"_suffix\").len() for s in &strings"),
        &stage("&strings", "s", "true", "(String::new() + s + \"_suffix\").len()")
    ));
    let result = comprehend(&strings, 0, &yes, &|s: &String| (String::new() + s + "_suffix").len());
    let suff_len = "_suffix".len();
    assert_eq!(result, vec![strings[0].len() + suff_len, strings[1].len() + suff_len]);
}

#[test]
fn simple_filter() {
    let out = lower("x for x in [0, 1, 2, 3, 4] if x % 2 == 0");
    assert!(same_tokens(&out, &stage("[0, 1, 2, 3, 4]", "x", "true && (x % 2 == 0)", "x")));
    let result = comprehend(&vec![0, 1, 2, 3, 4], 1, &|_k: usize, x: &i32| x % 2 == 0, &|x: &i32| *x);
    assert_eq!(result, [0, 2, 4]);
}

#[test]
fn map_and_filter() {
    // square even
    let out = lower("x * x for x in [0, 1, 2, 3, 4] if x % 2 == 0");
    assert!(same_tokens(&out, &stage("[0, 1, 2, 3, 4]", "x", "true && (x % 2 == 0)", "x * x")));
    let result = comprehend(&vec![0, 1, 2, 3, 4], 1, &|_k: usize, x: &i32| x % 2 == 0, &|x: &i32| x * x);
    assert_eq!(result, [0, 4, 16]);

    // complex match and filter
    let out = lower(
        "x + y.parse::<u32>().unwrap() + z.unwrap() as u32 for TestVal { x, y, z } in vals if z.unwrap_or(-1) >= 0",
    );
    assert!(same_tokens(
        &out,
        &stage(
            "vals",
            "TestVal { x, y, z }",
            "true && (z.unwrap_or(-1) >= 0)",
            "x + y.parse::<u32>().unwrap() + z.unwrap() as u32"
        )
    ));
    let vals = vec![
        SignedTestVal::new(1, "40".to_string(), None),
        SignedTestVal::new(3, "13".to_string(), Some(-2)),
        SignedTestVal::new(10, "2".to_string(), Some(5)),
    ];
    let result = comprehend(
        &vals,
        1,
        &|_k: usize, v: &SignedTestVal| v.z.unwrap_or(-1) >= 0,
        &|SignedTestVal { x, y, z }: &SignedTestVal| x + y.parse::<u32>().unwrap() + z.unwrap() as u32,
    );
    assert_eq!(result, vec![17]);

    // counting vals using comprehension
    let out = lower("x for x in vec![true, false, true, true, true, false] if x");
    assert!(same_tokens(&out, &stage("vec![true, false, true, true, true, false]", "x", "true && (x)", "x")));
    let flags = vec![true, false, true, true, true, false];
    assert_eq!(comprehend(&flags, 1, &|_k: usize, x: &bool| *x, &|x: &bool| *x).len(), 4);
}

#[test]
fn missing_in_is_reported_after_the_pattern() {
    assert_eq!(
        expand(&toks("x for x [1,2,3]")),
        Err(CompError { kind: ErrorKind::MissingKeyword, pos: 3 })
    );
}

#[test]
fn missing_for_is_reported() {
    assert_eq!(expand(&toks("x in xs")), Err(CompError { kind: ErrorKind::MissingKeyword, pos: 1 }));
}

#[test]
fn trailing_tokens_are_reported() {
    assert_eq!(
        expand(&toks("x for x in xs if a b")),
        Err(CompError { kind: ErrorKind::MissingKeyword, pos: 7 })
    );
}

#[test]
fn malformed_pattern_is_reported() {
    assert_eq!(
        expand(&toks("x for + in xs")),
        Err(CompError { kind: ErrorKind::MalformedPattern, pos: 2 })
    );
}

#[test]
fn malformed_condition_is_fatal() {
    assert_eq!(
        expand(&toks("x for x in xs if")),
        Err(CompError { kind: ErrorKind::MalformedSubExpression, pos: 6 })
    );
    assert_eq!(
        expand(&toks("x for x in xs if a if *")),
        Err(CompError { kind: ErrorKind::MalformedSubExpression, pos: 8 })
    );
}

#[test]
fn malformed_mapping_and_iterable_are_reported() {
    assert_eq!(expand(&toks("")), Err(CompError { kind: ErrorKind::MalformedSubExpression, pos: 0 }));
    assert_eq!(
        expand(&toks("x for x in")),
        Err(CompError { kind: ErrorKind::MalformedSubExpression, pos: 4 })
    );
}

#[test]
fn failed_attempt_leaves_cursor_in_place() {
    let t = toks("y z");
    let mut cursor = 0;
    assert_eq!(parse_conditions(&t, &mut cursor).map(|v| v.len()), Ok(0));
    assert_eq!(cursor, 0);

    let t = toks("if a if b > 1 c");
    let mut cursor = 0;
    let cs = parse_conditions(&t, &mut cursor).map(|v| v.len());
    assert_eq!(cs, Ok(2));
    assert_eq!(cursor, 6);
}

#[test]
fn conditions_stay_in_order_in_the_output() {
    let out = lower("x for x in xs if x > 0 if x < 5");
    assert!(out.contains("true && (x > 0 ) && (x < 5 ) {"));
    let c = parse_comp(&toks("x for x in xs if x > 0 if x < 5")).unwrap();
    assert_eq!(c.clauses.len(), 1);
    assert_eq!(c.clauses[0].conditions.len(), 2);
    assert_eq!(c.clauses[0].conditions[0].expr.len(), 3);
}

#[test]
fn several_clauses_nest_outermost_first() {
    let out = lower("(x, y) for x in a for y in b if x < y");
    let inner = stage("b", "y", "true && (x < y)", "(x, y)");
    let expected = format!(
        "::core::iter::IntoIterator::into_iter(a).flat_map(move |x| (if true {{ ::core::option::Option::Some({}) }} else {{ ::core::option::Option::None }}).into_iter().flatten())",
        inner
    );
    assert!(same_tokens(&out, &expected));
    assert!(syn::parse_str::<syn::Expr>(&out).is_ok());
}

#[test]
fn false_condition_short_circuits_the_next() {
    let out = lower("x for x in [1, 2] if false if SIDE_EFFECT()");
    assert!(same_tokens(&out, &stage("[1, 2]", "x", "true && (false) && (SIDE_EFFECT())", "x")));
    let calls = Cell::new(0);
    let cond = |k: usize, _x: &i32| {
        if k == 0 {
            false
        } else {
            calls.set(calls.get() + 1);
            true
        }
    };
    let result = comprehend(&vec![1, 2], 2, &cond, &|x: &i32| *x);
    assert!(result.is_empty());
    assert_eq!(calls.get(), 0);
}

#[test]
fn order_and_multiplicity_are_kept() {
    let result = comprehend(&vec![3, 1, 3, 2, 0], 1, &|_k: usize, x: &i32| *x > 1, &|x: &i32| x * 10);
    assert_eq!(result, [30, 30, 20]);
}

#[test]
fn no_conditions_maps_every_element() {
    let result = comprehend(&vec![5, 5, -1], 0, &|_k: usize, _x: &i32| false, &|x: &i32| x - 1);
    assert_eq!(result, [4, 4, -2]);
    assert!(qualifies(&7, 0, &|_k: usize, _x: &i32| false));
}

#[test]
fn conditions_are_evaluated_in_declared_order() {
    let seen = Cell::new(Vec::new());
    let cond = |k: usize, x: &i32| {
        let mut v = seen.take();
        v.push(k);
        seen.set(v);
        k != 1 || *x > 0
    };
    assert!(!qualifies(&-4, 3, &cond));
    assert_eq!(seen.take(), vec![0, 1]);
    assert!(qualifies(&4, 3, &cond));
    assert_eq!(seen.take(), vec![0, 1, 2]);
}

#[test]
fn keywords_and_rendering() {
    let t = toks("x * y for (x, y) in v");
    assert_eq!(t.len(), 7);
    assert!(is_keyword(&t[3], "for"));
    assert!(!is_keyword(&t[0], "for"));
    assert!(!is_keyword(&t[3], "fo"));
    let t = toks("a == b");
    assert_eq!(render(&t, 0, t.len()), "a == b ");
    assert_eq!(t.len(), 4);
    assert_eq!(render(&t, 1, 4), "== b ");
    assert_eq!(render(&t, 2, 2), "");
}
