use crossroads::driver::{crossroads, FnItem};
use crossroads::finder::PathFinder;
use crossroads::rewriter::Rewriter;
use crossroads::tree::{Arm, Arms, BinOp, Error, Expr, Exprs, Pat};

fn exprs_of(mut v: Vec<Expr>) -> Exprs {
    let mut out = Exprs::Nil;
    while let Some(e) = v.pop() {
        out = Exprs::Cons(Box::new(e), Box::new(out));
    }
    out
}

fn arms_of(mut v: Vec<Arm>) -> Arms {
    let mut out = Arms::Nil;
    while let Some(a) = v.pop() {
        out = Arms::Cons(Box::new(a), Box::new(out));
    }
    out
}

fn block(v: Vec<Expr>) -> Expr {
    Expr::Block(exprs_of(v))
}

fn arm(label: &str, body: Expr) -> Arm {
    Arm {
        pat: Pat::Label(label.to_string()),
        body,
    }
}

fn fork(arms: Vec<Arm>) -> Expr {
    Expr::Match {
        scrutinee: Box::new(Expr::Marker),
        arms: arms_of(arms),
    }
}

fn func(name: &str, body: Expr) -> FnItem {
    FnItem {
        name: name.to_string(),
        body,
    }
}

fn eval_exprs(es: &Exprs) -> u64 {
    match es {
        Exprs::Nil => panic!("evaluating an empty block"),
        Exprs::Cons(first, rest) => match **rest {
            Exprs::Nil => eval(first),
            _ => eval_exprs(rest),
        },
    }
}

fn eval(e: &Expr) -> u64 {
    match e {
        Expr::Lit(v) => *v,
        Expr::Block(stmts) => eval_exprs(stmts),
        Expr::Binary(BinOp::Add, left, right) => eval(left) + eval(right),
        Expr::Binary(BinOp::Mul, left, right) => eval(left) * eval(right),
        Expr::Ret(value) => eval(value),
        _ => panic!("evaluating an unresolved or opaque node"),
    }
}

fn variant<'a>(vs: &'a [FnItem], name: &str) -> &'a FnItem {
    vs.iter()
        .find(|f| f.name == name)
        .unwrap_or_else(|| panic!("no variant named {}", name))
}

#[test]
fn actually_duplicates() {
    let f = func(
        "i",
        block(vec![fork(vec![
            arm("am_legend", block(vec![])),
            arm("am_human", block(vec![])),
        ])]),
    );
    let vs = crossroads(&f).unwrap();
    assert_eq!(2, vs.len());
    variant(&vs, "i_am_legend");
    variant(&vs, "i_am_human");
}

#[test]
fn with_value() {
    let f = func(
        "returns",
        block(vec![fork(vec![
            arm("a_1", Expr::Lit(1)),
            arm("a_2", Expr::Lit(2)),
        ])]),
    );
    let vs = crossroads(&f).unwrap();
    assert_eq!(1, eval(&variant(&vs, "returns_a_1").body));
    assert_eq!(2, eval(&variant(&vs, "returns_a_2").body));
}

#[test]
fn recursive() {
    let f = func(
        "recursively",
        block(vec![fork(vec![
            arm(
                "returns",
                fork(vec![arm("a_1", Expr::Lit(1)), arm("a_3", Expr::Lit(3))]),
            ),
            arm("returns_a_2", Expr::Lit(2)),
        ])]),
    );
    let vs = crossroads(&f).unwrap();
    assert_eq!(1, eval(&variant(&vs, "recursively_returns_a_1").body));
    assert_eq!(2, eval(&variant(&vs, "recursively_returns_a_2").body));
    assert_eq!(3, eval(&variant(&vs, "recursively_returns_a_3").body));
}

#[test]
fn leaves_function_without_forks_intact() {
    let f = func("does_not_actually_need_crossroads", block(vec![]));
    let vs = crossroads(&f).unwrap();
    assert_eq!(1, vs.len());
    assert_eq!("does_not_actually_need_crossroads", vs[0].name);
    assert_eq!(f.body, vs[0].body);
}

#[test]
fn single_path() {
    let f = func(
        "add",
        block(vec![Expr::Ret(Box::new(Expr::Binary(
            BinOp::Add,
            Box::new(fork(vec![arm("a_1", Expr::Lit(1))])),
            Box::new(fork(vec![arm("and_a_2", Expr::Lit(2))])),
        )))]),
    );
    let vs = crossroads(&f).unwrap();
    assert_eq!(3, eval(&variant(&vs, "add_a_1_and_a_2").body));
}

#[test]
fn preference() {
    let f = func(
        "preference",
        block(vec![Expr::Ret(Box::new(Expr::Binary(
            BinOp::Mul,
            Box::new(fork(vec![arm(
                "does",
                Expr::Binary(BinOp::Add, Box::new(Expr::Lit(1)), Box::new(Expr::Lit(3))),
            )])),
            Box::new(fork(vec![arm("matter", Expr::Lit(2))])),
        )))]),
    );
    let vs = crossroads(&f).unwrap();
    assert_eq!(8, eval(&variant(&vs, "preference_does_matter").body));
}

#[test]
fn sibling_forks_multiply() {
    let f = func(
        "grid",
        block(vec![
            fork(vec![
                arm("a", block(vec![])),
                arm("b", block(vec![])),
            ]),
            fork(vec![
                arm("x", block(vec![])),
                arm("y", block(vec![])),
                arm("z", block(vec![])),
            ]),
        ]),
    );
    let vs = crossroads(&f).unwrap();
    assert_eq!(6, vs.len());
    let names: Vec<&str> = vs.iter().map(|v| v.name.as_str()).collect();
    // Each branch of the second decision point extends every path already
    // discovered, so the second point's labels group the variants.
    assert_eq!(
        vec!["grid_a_x", "grid_b_x", "grid_a_y", "grid_b_y", "grid_a_z", "grid_b_z"],
        names
    );
}

#[test]
fn nested_fork_counts() {
    // Two outer branches; one holds a nested decision point with two
    // branches: (2 - 1) + 2 = 3 variants.
    let f = func(
        "outer",
        block(vec![fork(vec![
            arm(
                "deep",
                fork(vec![arm("p", Expr::Lit(1)), arm("q", Expr::Lit(2))]),
            ),
            arm("flat", Expr::Lit(3)),
        ])]),
    );
    let vs = crossroads(&f).unwrap();
    assert_eq!(3, vs.len());
    assert_eq!(1, eval(&variant(&vs, "outer_deep_p").body));
    assert_eq!(2, eval(&variant(&vs, "outer_deep_q").body));
    assert_eq!(3, eval(&variant(&vs, "outer_flat").body));
}

#[test]
fn variants_hold_no_decision_points() {
    let f = func(
        "recursively",
        block(vec![fork(vec![
            arm(
                "returns",
                fork(vec![arm("a_1", Expr::Lit(1)), arm("a_3", Expr::Lit(3))]),
            ),
            arm("returns_a_2", Expr::Lit(2)),
        ])]),
    );
    let vs = crossroads(&f).unwrap();
    assert_eq!(3, vs.len());
    for v in &vs {
        assert!(!v.body.has_fork());
    }
}

#[test]
fn transform_is_order_stable() {
    let make = || {
        func(
            "recursively",
            block(vec![fork(vec![
                arm(
                    "returns",
                    fork(vec![arm("a_1", Expr::Lit(1)), arm("a_3", Expr::Lit(3))]),
                ),
                arm("returns_a_2", Expr::Lit(2)),
            ])]),
        )
    };
    let first = crossroads(&make()).unwrap();
    let second = crossroads(&make()).unwrap();
    assert_eq!(first.len(), second.len());
    for (a, b) in first.iter().zip(second.iter()) {
        assert_eq!(a.name, b.name);
        assert_eq!(a.body, b.body);
    }
}

#[test]
fn non_identifier_branch_is_malformed() {
    let f = func(
        "broken",
        block(vec![fork(vec![
            arm("fine", Expr::Lit(1)),
            Arm {
                pat: Pat::Other,
                body: Expr::Lit(2),
            },
        ])]),
    );
    assert_eq!(Err(Error::MalformedDecisionPoint), crossroads(&f));
}

#[test]
fn branchless_fork_is_malformed() {
    let f = func("empty", block(vec![fork(vec![])]));
    assert_eq!(Err(Error::MalformedDecisionPoint), crossroads(&f));
}

#[test]
fn ordinary_match_passes_through() {
    // A match whose scrutinee is not the marker is ordinary code, whatever
    // its patterns, and survives the transform unchanged.
    let f = func(
        "plain",
        block(vec![Expr::Match {
            scrutinee: Box::new(Expr::Lit(0)),
            arms: arms_of(vec![
                arm("zero", Expr::Lit(1)),
                Arm {
                    pat: Pat::Other,
                    body: Expr::Lit(2),
                },
            ]),
        }]),
    );
    let vs = crossroads(&f).unwrap();
    assert_eq!(1, vs.len());
    assert_eq!("plain", vs[0].name);
    assert_eq!(f.body, vs[0].body);
}

#[test]
fn bare_marker_passes_through() {
    let f = func("stray", block(vec![Expr::Marker]));
    let vs = crossroads(&f).unwrap();
    assert_eq!(1, vs.len());
    assert_eq!(f.body, vs[0].body);
}

#[test]
fn shadowed_duplicate_label_is_inconsistent() {
    // Two branches of one decision point share a label: the rewriter always
    // selects the first, so the path discovered through the second cannot be
    // replayed.
    let f = func(
        "twin",
        block(vec![fork(vec![
            arm("a", fork(vec![arm("b", Expr::Lit(1))])),
            arm("a", Expr::Lit(2)),
        ])]),
    );
    assert_eq!(Err(Error::PathRewriteInconsistency), crossroads(&f));
}

#[test]
fn rewriter_reports_missing_label() {
    let mut body = block(vec![fork(vec![arm("x", Expr::Lit(1))])]);
    let mut rewriter = Rewriter::new(vec!["y".to_string()]);
    assert_eq!(
        Err(Error::PathRewriteInconsistency),
        rewriter.visit_expr_mut(&mut body)
    );
}

#[test]
fn rewriter_reports_exhausted_queue() {
    let mut body = block(vec![fork(vec![arm("x", Expr::Lit(1))])]);
    let mut rewriter = Rewriter::new(vec![]);
    assert_eq!(
        Err(Error::PathRewriteInconsistency),
        rewriter.visit_expr_mut(&mut body)
    );
}

#[test]
fn finder_seeds_and_extends_paths() {
    let body = block(vec![fork(vec![
        arm("left", block(vec![])),
        arm("right", block(vec![])),
    ])]);
    let mut finder = PathFinder::new(vec![vec!["root".to_string()]]);
    finder.visit_expr(&body).unwrap();
    let paths = finder.into_inner();
    assert_eq!(
        vec![
            vec!["root".to_string(), "left".to_string()],
            vec!["root".to_string(), "right".to_string()],
        ],
        paths
    );
}
