use eval::config::{Case, Flow, Testcase};
use eval::expr::{Expr, Exprs};
use eval::text::{block, replace_all, replace_first, trim};

fn bytes(s: &str) -> Vec<u8> {
    s.as_bytes().to_vec()
}

fn sample_testcase() -> Testcase {
    Testcase {
        desc: bytes("drop of a zero-sized allocation"),
        tags: vec![bytes("alloc")],
        features: vec![bytes("layout")],
        ty: bytes("Layout"),
        val: bytes("Layout::from_size_align(0, 1).unwrap()"),
        pos: Case {
            src: bytes("Layout::from_size_align(0, 1).unwrap()"),
            code: bytes("fn main() {\n    let layout = SOURCE!();\n}"),
        },
        neg: Case {
            src: bytes("Layout::from_size_align(8, 1).unwrap()"),
            code: bytes("fn main() {\n    let layout = SOURCE!();\n}"),
        },
    }
}

#[test]
fn test_generate() {
    let case = Case {
        src: bytes("Layout::from_size_align(0, 1).unwrap()"),
        code: bytes(
            r#"
    use std::alloc::{alloc, dealloc, Layout};
    fn main() {
        let layout = SOURCE!();
        let ptr = unsafe { alloc(layout) }; // SINK
        unsafe { dealloc(ptr, layout) };
    }"#,
        ),
    };

    let expr = bytes(
        r#"
    fn call(param: TYPE!()) -> TYPE!() {
        EXPRE!(param)
    }
    call(SOURCE!())
        "#,
    );

    println!("{}", String::from_utf8(case.nest(Some(&expr))).unwrap());
}

#[test]
fn nest_without_carrier_is_plain_substitution() {
    let case = Case {
        src: bytes("alloc(0)"),
        code: bytes("fn main() { let x = SOURCE!(); use_it(SOURCE!()); }"),
    };
    let expected = "fn main() { let x = SOURCE!(); use_it(SOURCE!()); }"
        .replace("SOURCE!()", "alloc(0)");
    assert_eq!(case.nest(None), expected.into_bytes());
}

#[test]
fn nest_with_carrier_wraps_trims_and_substitutes() {
    let case = Case {
        src: bytes("alloc(0)"),
        code: bytes("fn main() { SOURCE!() }"),
    };
    let carrier = bytes("call(SOURCE!())");
    let inner = "call(SOURCE!())".replace("SOURCE!()", "alloc(0)");
    let wrapped = format!("{{\n{}\n}}", inner);
    let expected = "fn main() { SOURCE!() }".replace("SOURCE!()", wrapped.trim());
    assert_eq!(case.nest(Some(&carrier)), expected.into_bytes());
}

#[test]
fn cases_builds_both_programs() {
    let tc = sample_testcase();
    let (pos, neg) = tc.cases(None);
    assert_eq!(
        pos.code,
        bytes("fn main() {\n    let layout = Layout::from_size_align(0, 1).unwrap();\n}")
    );
    assert_eq!(
        neg.code,
        bytes("fn main() {\n    let layout = Layout::from_size_align(8, 1).unwrap();\n}")
    );
    assert_eq!(pos.merge(), pos.code);
}

#[test]
fn replace_all_is_leftmost_non_overlapping() {
    assert_eq!(
        replace_all(&bytes("aaa"), &bytes("aa"), &bytes("b")),
        bytes("ba")
    );
    assert_eq!(
        replace_all(&bytes("xyx"), &bytes("x"), &bytes("yy")),
        bytes("yyyyy")
    );
    assert_eq!(
        replace_all(&bytes("no match"), &bytes("zz"), &bytes("q")),
        bytes("no match")
    );
}

#[test]
fn replace_first_touches_only_the_first() {
    assert_eq!(
        replace_first(&bytes("a.b.c"), &bytes("."), &bytes("-")),
        bytes("a-b.c")
    );
    assert_eq!(
        replace_first(&bytes("abc"), &bytes("z"), &bytes("-")),
        bytes("abc")
    );
}

#[test]
fn trim_strips_ascii_whitespace() {
    assert_eq!(trim(&bytes("  \n x y\t\r\n")), bytes("x y"));
    assert_eq!(trim(&bytes("")), bytes(""));
    assert_eq!(trim(&bytes(" \t ")), bytes(""));
    assert_eq!(block(&bytes("x")), bytes("{\nx\n}"));
}

#[test]
fn expr_identity_encodes_index_length_depth() {
    let e = Expr::new(0, bytes("SOURCE!()"), 0, 0, Vec::new());
    assert_eq!(e.num, bytes("0000-0-0"));
    let e = Expr::new(7, bytes("c"), 1, 0, Vec::new());
    assert_eq!(e.num, bytes("0007-1-0"));
    let e = Expr::new(12345, bytes("c"), 3, 2, Vec::new());
    assert_eq!(e.num, bytes("12345-3-2"));
    // The zero padding stops widening once the index itself is four digits.
    let e = Expr::new(9999, bytes("c"), 0, 0, Vec::new());
    assert_eq!(e.num, bytes("9999-0-0"));
    let e = Expr::new(10000, bytes("c"), 0, 0, Vec::new());
    assert_eq!(e.num, bytes("10000-0-0"));

    let seed = Expr::source();
    assert_eq!(seed.num, bytes("0000-0-0"));
    assert_eq!(seed.code, bytes("SOURCE!()"));
    assert_eq!(seed.length, 0);
    assert_eq!(seed.depth, 0);
}

#[test]
fn fill_source_replaces_every_placeholder() {
    let e = Expr::new(1, bytes("f(SOURCE!(), SOURCE!())"), 1, 0, Vec::new());
    assert_eq!(e.fill_source(&bytes("v")), bytes("f(v, v)"));
}

#[test]
fn into_expr_resolves_static_placeholders() {
    let tc = sample_testcase();
    let flow = Flow {
        name: bytes("Function call"),
        code: bytes("f(SOURCE!(), TYPE!(), VALUE!(), COND!())"),
    };
    let seed = Expr::source();
    let pool = Exprs::new();
    let e = flow.into_expr(1, &seed, &pool, &tc);
    assert_eq!(
        e.code,
        bytes("f({\nSOURCE!()\n}, Layout, Layout::from_size_align(0, 1).unwrap(), true)")
    );
    assert_eq!(e.length, 1);
    assert_eq!(e.depth, 0);
    assert_eq!(e.num, bytes("0001-1-0"));
}

#[test]
fn into_expr_samples_the_pool_for_nesting_sites() {
    let tc = sample_testcase();
    let flow = Flow {
        name: bytes("Nested call"),
        code: bytes("g(EXPRE!(param))"),
    };
    let seed = Expr::source();
    let mut pool = Exprs::new();
    pool.push(Expr::source());
    // The pool holds one candidate, so the random draw is forced: the site
    // takes that candidate's code with its placeholder resolved to the
    // parameter name, wrapped as a block.
    let e = flow.into_expr(1, &seed, &pool, &tc);
    assert_eq!(e.code, bytes("g({\nparam\n})"));
    assert_eq!(e.length, 1);
    assert_eq!(e.depth, 1);
    assert_eq!(e.num, bytes("0001-1-1"));
}

#[test]
fn into_expr_depth_takes_the_deepest_site() {
    let tc = sample_testcase();
    let flow = Flow { name: bytes("Nested call"), code: bytes("g(EXPRE!(x))") };
    // The only pool candidate sits at depth 2: nesting it pushes the new
    // candidate to depth 3.
    let mut pool = Exprs::new();
    pool.push(Expr::new(4, bytes("h(SOURCE!())"), 1, 2, Vec::new()));
    let seed = Expr::source();
    let e = flow.into_expr(9, &seed, &pool, &tc);
    assert_eq!(e.depth, 3);
    assert_eq!(e.code, bytes("g({\nh(x)\n})"));

    // A carrier already deeper than every site keeps its own depth.
    let deep_carrier = Expr::new(5, bytes("SOURCE!()"), 2, 7, Vec::new());
    let e = flow.into_expr(10, &deep_carrier, &pool, &tc);
    assert_eq!(e.depth, 7);
    assert_eq!(e.length, 3);
}

#[test]
fn pool_sampling_is_none_only_when_empty() {
    let mut pool = Exprs::new();
    assert_eq!(pool.len(), 0);
    assert!(pool.random_expr().is_none());
    pool.push(Expr::source());
    let drawn = pool.random_expr().expect("a one-candidate pool always yields");
    assert_eq!(drawn.num, bytes("0000-0-0"));
}
