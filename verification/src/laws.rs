//! The laws of the transform, stated and proved over the spec functions that
//! the executable contracts are pinned to.
//!
//! Each law is a public proof function; its doc comment states the law in
//! words.

use vstd::prelude::*;

use crate::driver::{crossroads_spec, item_variants, join_name, seed, variants_for, FnItem,
    Variant};
use crate::finder::{find_in_expr, find_in_exprs, find_in_fork_arms, find_in_match_arms};
use crate::paths::{extend_all, Path, PathSet};
use crate::rewriter::{block_of, rewrite_expr, rewrite_exprs, rewrite_fork_arms, rewrite_match_arms};
use crate::tree::{distinct_seqs, Arm, Arms, Error, Expr, Exprs, Pat};

verus! {

/// A tree without decision points passes the finder's walk through unchanged:
/// the outgoing path set is exactly the incoming one.
pub proof fn lemma_fork_free_find(e: Expr, cur: PathSet)
    requires
        e.fork_free(),
    ensures
        find_in_expr(e, cur) == Ok::<PathSet, Error>(cur),
    decreases e,
{
    match e {
        Expr::Marker => {},
        Expr::Match { scrutinee, arms } => {
            lemma_fork_free_find(*scrutinee, cur);
            lemma_fork_free_find_match_arms(arms, cur);
        },
        Expr::Lit(_) => {},
        Expr::Block(stmts) => {
            lemma_fork_free_find_exprs(stmts, cur);
        },
        Expr::Binary(_, left, right) => {
            lemma_fork_free_find(*left, cur);
            lemma_fork_free_find(*right, cur);
        },
        Expr::Ret(value) => {
            lemma_fork_free_find(*value, cur);
        },
        Expr::Other(children) => {
            lemma_fork_free_find_exprs(children, cur);
        },
    }
}

/// As [`lemma_fork_free_find`], for a sibling list.
pub proof fn lemma_fork_free_find_exprs(es: Exprs, cur: PathSet)
    requires
        es.fork_free(),
    ensures
        find_in_exprs(es, cur) == Ok::<PathSet, Error>(cur),
    decreases es,
{
    match es {
        Exprs::Nil => {},
        Exprs::Cons(first, rest) => {
            lemma_fork_free_find(*first, cur);
            lemma_fork_free_find_exprs(*rest, cur);
        },
    }
}

/// As [`lemma_fork_free_find`], for an ordinary `match`'s branches.
pub proof fn lemma_fork_free_find_match_arms(arms: Arms, cur: PathSet)
    requires
        arms.fork_free(),
    ensures
        find_in_match_arms(arms, cur) == Ok::<PathSet, Error>(cur),
    decreases arms,
{
    match arms {
        Arms::Nil => {},
        Arms::Cons(arm, rest) => {
            lemma_fork_free_find(arm.body, cur);
            lemma_fork_free_find_match_arms(*rest, cur);
        },
    }
}

/// A tree without decision points is rewritten to itself, whatever the queue:
/// the rewrite returns the tree unchanged and consumes no label.
pub proof fn lemma_fork_free_rewrite(e: Expr, q: Seq<Seq<char>>)
    requires
        e.fork_free(),
    ensures
        rewrite_expr(e, q) == Ok::<(Expr, Seq<Seq<char>>), Error>((e, q)),
    decreases e,
{
    match e {
        Expr::Marker => {},
        Expr::Match { scrutinee, arms } => {
            lemma_fork_free_rewrite(*scrutinee, q);
            lemma_fork_free_rewrite_match_arms(arms, q);
        },
        Expr::Lit(_) => {},
        Expr::Block(stmts) => {
            lemma_fork_free_rewrite_exprs(stmts, q);
        },
        Expr::Binary(_, left, right) => {
            lemma_fork_free_rewrite(*left, q);
            lemma_fork_free_rewrite(*right, q);
        },
        Expr::Ret(value) => {
            lemma_fork_free_rewrite(*value, q);
        },
        Expr::Other(children) => {
            lemma_fork_free_rewrite_exprs(children, q);
        },
    }
}

/// As [`lemma_fork_free_rewrite`], for a sibling list.
pub proof fn lemma_fork_free_rewrite_exprs(es: Exprs, q: Seq<Seq<char>>)
    requires
        es.fork_free(),
    ensures
        rewrite_exprs(es, q) == Ok::<(Exprs, Seq<Seq<char>>), Error>((es, q)),
    decreases es,
{
    match es {
        Exprs::Nil => {},
        Exprs::Cons(first, rest) => {
            lemma_fork_free_rewrite(*first, q);
            lemma_fork_free_rewrite_exprs(*rest, q);
        },
    }
}

/// As [`lemma_fork_free_rewrite`], for an ordinary `match`'s branches.
pub proof fn lemma_fork_free_rewrite_match_arms(arms: Arms, q: Seq<Seq<char>>)
    requires
        arms.fork_free(),
    ensures
        rewrite_match_arms(arms, q) == Ok::<(Arms, Seq<Seq<char>>), Error>((arms, q)),
    decreases arms,
{
    match arms {
        Arms::Nil => {},
        Arms::Cons(arm, rest) => {
            lemma_fork_free_rewrite(arm.body, q);
            lemma_fork_free_rewrite_match_arms(*rest, q);
            if rewrite_expr(arm.body, q) is Ok && rewrite_match_arms(*rest, q) is Ok {
                assert(Arms::Cons(
                    Box::new(Arm { pat: arm.pat, body: arm.body }),
                    Box::new(*rest),
                ) == arms);
            }
        },
    }
}

/// The finder succeeds exactly on well-formed trees: its walk returns a path
/// set if and only if every decision point has at least one branch and only
/// bare-identifier branch patterns, and otherwise it reports exactly a
/// malformed decision point.  Whichever holds does not depend on the seed.
pub proof fn lemma_find_ok_iff_valid(e: Expr, cur: PathSet)
    ensures
        find_in_expr(e, cur) is Ok <==> e.valid_forks(),
        !e.valid_forks() ==> find_in_expr(e, cur) == Err::<PathSet, Error>(
            Error::MalformedDecisionPoint,
        ),
    decreases e,
{
    match e {
        Expr::Marker => {},
        Expr::Match { scrutinee, arms } => {
            if *scrutinee is Marker {
                if !(arms is Nil) {
                    lemma_find_fork_arms_ok_iff_valid(arms, cur);
                }
            } else {
                lemma_find_ok_iff_valid(*scrutinee, cur);
                match find_in_expr(*scrutinee, cur) {
                    Ok(cur1) => {
                        lemma_find_match_arms_ok_iff_valid(arms, cur1);
                    },
                    Err(_) => {},
                }
            }
        },
        Expr::Lit(_) => {},
        Expr::Block(stmts) => {
            lemma_find_exprs_ok_iff_valid(stmts, cur);
        },
        Expr::Binary(_, left, right) => {
            lemma_find_ok_iff_valid(*left, cur);
            match find_in_expr(*left, cur) {
                Ok(cur1) => {
                    lemma_find_ok_iff_valid(*right, cur1);
                },
                Err(_) => {},
            }
        },
        Expr::Ret(value) => {
            lemma_find_ok_iff_valid(*value, cur);
        },
        Expr::Other(children) => {
            lemma_find_exprs_ok_iff_valid(children, cur);
        },
    }
}

/// As [`lemma_find_ok_iff_valid`], for a sibling list.
pub proof fn lemma_find_exprs_ok_iff_valid(es: Exprs, cur: PathSet)
    ensures
        find_in_exprs(es, cur) is Ok <==> es.valid_forks(),
        !es.valid_forks() ==> find_in_exprs(es, cur) == Err::<PathSet, Error>(
            Error::MalformedDecisionPoint,
        ),
    decreases es,
{
    match es {
        Exprs::Nil => {},
        Exprs::Cons(first, rest) => {
            lemma_find_ok_iff_valid(*first, cur);
            match find_in_expr(*first, cur) {
                Ok(cur1) => {
                    lemma_find_exprs_ok_iff_valid(*rest, cur1);
                },
                Err(_) => {},
            }
        },
    }
}

/// As [`lemma_find_ok_iff_valid`], for a decision point's branches.
pub proof fn lemma_find_fork_arms_ok_iff_valid(arms: Arms, cur: PathSet)
    ensures
        find_in_fork_arms(arms, cur) is Ok <==> arms.valid_fork_arms(),
        !arms.valid_fork_arms() ==> find_in_fork_arms(arms, cur) == Err::<PathSet, Error>(
            Error::MalformedDecisionPoint,
        ),
    decreases arms,
{
    match arms {
        Arms::Nil => {},
        Arms::Cons(arm, rest) => {
            match arm.pat {
                Pat::Label(name) => {
                    lemma_find_ok_iff_valid(arm.body, extend_all(cur, name@));
                    match find_in_expr(arm.body, extend_all(cur, name@)) {
                        Ok(_) => {
                            lemma_find_fork_arms_ok_iff_valid(*rest, cur);
                        },
                        Err(_) => {},
                    }
                },
                Pat::Other => {},
            }
        },
    }
}

/// As [`lemma_find_ok_iff_valid`], for an ordinary `match`'s branches.
pub proof fn lemma_find_match_arms_ok_iff_valid(arms: Arms, cur: PathSet)
    ensures
        find_in_match_arms(arms, cur) is Ok <==> arms.valid_inner(),
        !arms.valid_inner() ==> find_in_match_arms(arms, cur) == Err::<PathSet, Error>(
            Error::MalformedDecisionPoint,
        ),
    decreases arms,
{
    match arms {
        Arms::Nil => {},
        Arms::Cons(arm, rest) => {
            lemma_find_ok_iff_valid(arm.body, cur);
            match find_in_expr(arm.body, cur) {
                Ok(cur1) => {
                    lemma_find_match_arms_ok_iff_valid(*rest, cur1);
                },
                Err(_) => {},
            }
        },
    }
}

/// A sequence without duplicates headed by `x`: the tail has no duplicates
/// either, and does not contain `x`.
proof fn lemma_distinct_cons(x: Seq<char>, ls: Seq<Seq<char>>)
    requires
        distinct_seqs(seq![x] + ls),
    ensures
        distinct_seqs(ls),
        !ls.contains(x),
{
    assert forall|i: int, j: int| 0 <= i < j < ls.len() implies ls[i] != ls[j] by {
        assert((seq![x] + ls)[i + 1] == ls[i]);
        assert((seq![x] + ls)[j + 1] == ls[j]);
    }
    if ls.contains(x) {
        let i = choose|i: int| 0 <= i < ls.len() && ls[i] == x;
        assert((seq![x] + ls)[0] == x);
        assert((seq![x] + ls)[i + 1] == ls[i]);
        assert(false);
    }
}

/// The round-trip witness for one expression: path `k` of the walk of `e`
/// seeded with `cur` extends seed path `j` by `suffix`, and rewriting `e`
/// with `suffix` before any queue tail succeeds, consumes exactly `suffix`,
/// and leaves no decision point behind.
pub open spec fn expr_round_trip(
    e: Expr,
    cur: PathSet,
    k: int,
    tail: Seq<Seq<char>>,
    j: int,
    suffix: Seq<Seq<char>>,
) -> bool {
    &&& 0 <= j < cur.len()
    &&& find_in_expr(e, cur)->Ok_0[k] == cur[j] + suffix
    &&& rewrite_expr(e, suffix + tail) matches Ok(pair) && pair.1 == tail && pair.0.fork_free()
        && (pair.0 is Marker ==> e is Marker)
}

/// As [`expr_round_trip`], for a sibling list.
pub open spec fn exprs_round_trip(
    es: Exprs,
    cur: PathSet,
    k: int,
    tail: Seq<Seq<char>>,
    j: int,
    suffix: Seq<Seq<char>>,
) -> bool {
    &&& 0 <= j < cur.len()
    &&& find_in_exprs(es, cur)->Ok_0[k] == cur[j] + suffix
    &&& rewrite_exprs(es, suffix + tail) matches Ok(pair) && pair.1 == tail && pair.0.fork_free()
}

/// As [`expr_round_trip`], for an ordinary `match`'s branches.
pub open spec fn match_arms_round_trip(
    arms: Arms,
    cur: PathSet,
    k: int,
    tail: Seq<Seq<char>>,
    j: int,
    suffix: Seq<Seq<char>>,
) -> bool {
    &&& 0 <= j < cur.len()
    &&& find_in_match_arms(arms, cur)->Ok_0[k] == cur[j] + suffix
    &&& rewrite_match_arms(arms, suffix + tail) matches Ok(pair) && pair.1 == tail
        && pair.0.fork_free()
}

/// The round-trip witness for a decision point's branches: the suffix starts
/// with the label of one of the branches, and selecting by that label with
/// the rest of the suffix before any queue tail succeeds, consumes exactly
/// the suffix, and leaves no decision point behind.
pub open spec fn fork_arms_round_trip(
    arms: Arms,
    cur: PathSet,
    k: int,
    tail: Seq<Seq<char>>,
    j: int,
    suffix: Seq<Seq<char>>,
) -> bool {
    &&& 0 <= j < cur.len()
    &&& find_in_fork_arms(arms, cur)->Ok_0[k] == cur[j] + suffix
    &&& suffix.len() >= 1
    &&& arms.labels().contains(suffix[0])
    &&& rewrite_fork_arms(arms, suffix[0], suffix.drop_first() + tail) matches Ok(pair)
        && pair.1 == tail && pair.0.fork_free() && !(pair.0 is Marker)
}

/// Round trip: every path the finder discovers is consistent with the tree
/// it was discovered on.  Path `k` of the walk seeded with `cur` extends one
/// seed path by a suffix, and rewriting with that suffix succeeds (provided
/// no decision point carries a duplicate label), consumes the suffix
/// exactly, and leaves a tree without decision points.
pub proof fn lemma_round_trip_expr(e: Expr, cur: PathSet, k: int, tail: Seq<Seq<char>>)
    requires
        find_in_expr(e, cur) is Ok,
        0 <= k < find_in_expr(e, cur)->Ok_0.len(),
        e.distinct_fork_labels(),
    ensures
        exists|j: int, suffix: Seq<Seq<char>>| expr_round_trip(e, cur, k, tail, j, suffix),
    decreases e,
{
    match e {
        Expr::Marker => {
            assert(cur[k] + Seq::<Seq<char>>::empty() =~= cur[k]);
            assert(Seq::<Seq<char>>::empty() + tail =~= tail);
            assert(expr_round_trip(e, cur, k, tail, k, Seq::empty()));
        },
        Expr::Match { scrutinee, arms } => {
            if *scrutinee is Marker {
                lemma_round_trip_fork_arms(arms, cur, k, tail);
                let (j, suffix) = choose|j: int, suffix: Seq<Seq<char>>|
                    fork_arms_round_trip(arms, cur, k, tail, j, suffix);
                assert((suffix + tail)[0] == suffix[0]);
                assert((suffix + tail).drop_first() =~= suffix.drop_first() + tail);
                assert(expr_round_trip(e, cur, k, tail, j, suffix));
            } else {
                let mid = find_in_expr(*scrutinee, cur)->Ok_0;
                lemma_round_trip_match_arms(arms, mid, k, tail);
                let (j1, suffix_a) = choose|j: int, suffix: Seq<Seq<char>>|
                    match_arms_round_trip(arms, mid, k, tail, j, suffix);
                lemma_round_trip_expr(*scrutinee, cur, j1, suffix_a + tail);
                let (j0, suffix_s) = choose|j: int, suffix: Seq<Seq<char>>|
                    expr_round_trip(*scrutinee, cur, j1, suffix_a + tail, j, suffix);
                assert((cur[j0] + suffix_s) + suffix_a =~= cur[j0] + (suffix_s + suffix_a));
                assert((suffix_s + suffix_a) + tail =~= suffix_s + (suffix_a + tail));
                assert(expr_round_trip(e, cur, k, tail, j0, suffix_s + suffix_a));
            }
        },
        Expr::Lit(_) => {
            assert(cur[k] + Seq::<Seq<char>>::empty() =~= cur[k]);
            assert(Seq::<Seq<char>>::empty() + tail =~= tail);
            assert(expr_round_trip(e, cur, k, tail, k, Seq::empty()));
        },
        Expr::Block(stmts) => {
            lemma_round_trip_exprs(stmts, cur, k, tail);
            let (j, suffix) = choose|j: int, suffix: Seq<Seq<char>>|
                exprs_round_trip(stmts, cur, k, tail, j, suffix);
            assert(expr_round_trip(e, cur, k, tail, j, suffix));
        },
        Expr::Binary(_, left, right) => {
            let mid = find_in_expr(*left, cur)->Ok_0;
            lemma_round_trip_expr(*right, mid, k, tail);
            let (j1, suffix_r) = choose|j: int, suffix: Seq<Seq<char>>|
                expr_round_trip(*right, mid, k, tail, j, suffix);
            lemma_round_trip_expr(*left, cur, j1, suffix_r + tail);
            let (j0, suffix_l) = choose|j: int, suffix: Seq<Seq<char>>|
                expr_round_trip(*left, cur, j1, suffix_r + tail, j, suffix);
            assert((cur[j0] + suffix_l) + suffix_r =~= cur[j0] + (suffix_l + suffix_r));
            assert((suffix_l + suffix_r) + tail =~= suffix_l + (suffix_r + tail));
            assert(expr_round_trip(e, cur, k, tail, j0, suffix_l + suffix_r));
        },
        Expr::Ret(value) => {
            lemma_round_trip_expr(*value, cur, k, tail);
            let (j, suffix) = choose|j: int, suffix: Seq<Seq<char>>|
                expr_round_trip(*value, cur, k, tail, j, suffix);
            assert(expr_round_trip(e, cur, k, tail, j, suffix));
        },
        Expr::Other(children) => {
            lemma_round_trip_exprs(children, cur, k, tail);
            let (j, suffix) = choose|j: int, suffix: Seq<Seq<char>>|
                exprs_round_trip(children, cur, k, tail, j, suffix);
            assert(expr_round_trip(e, cur, k, tail, j, suffix));
        },
    }
}

/// As [`lemma_round_trip_expr`], for a sibling list.
pub proof fn lemma_round_trip_exprs(es: Exprs, cur: PathSet, k: int, tail: Seq<Seq<char>>)
    requires
        find_in_exprs(es, cur) is Ok,
        0 <= k < find_in_exprs(es, cur)->Ok_0.len(),
        es.distinct_fork_labels(),
    ensures
        exists|j: int, suffix: Seq<Seq<char>>| exprs_round_trip(es, cur, k, tail, j, suffix),
    decreases es,
{
    match es {
        Exprs::Nil => {
            assert(cur[k] + Seq::<Seq<char>>::empty() =~= cur[k]);
            assert(Seq::<Seq<char>>::empty() + tail =~= tail);
            assert(exprs_round_trip(es, cur, k, tail, k, Seq::empty()));
        },
        Exprs::Cons(first, rest) => {
            let mid = find_in_expr(*first, cur)->Ok_0;
            lemma_round_trip_exprs(*rest, mid, k, tail);
            let (j1, suffix_r) = choose|j: int, suffix: Seq<Seq<char>>|
                exprs_round_trip(*rest, mid, k, tail, j, suffix);
            lemma_round_trip_expr(*first, cur, j1, suffix_r + tail);
            let (j0, suffix_f) = choose|j: int, suffix: Seq<Seq<char>>|
                expr_round_trip(*first, cur, j1, suffix_r + tail, j, suffix);
            assert((cur[j0] + suffix_f) + suffix_r =~= cur[j0] + (suffix_f + suffix_r));
            assert((suffix_f + suffix_r) + tail =~= suffix_f + (suffix_r + tail));
            assert(exprs_round_trip(es, cur, k, tail, j0, suffix_f + suffix_r));
        },
    }
}

/// As [`lemma_round_trip_expr`], for an ordinary `match`'s branches.
pub proof fn lemma_round_trip_match_arms(arms: Arms, cur: PathSet, k: int, tail: Seq<Seq<char>>)
    requires
        find_in_match_arms(arms, cur) is Ok,
        0 <= k < find_in_match_arms(arms, cur)->Ok_0.len(),
        arms.distinct_fork_labels(),
    ensures
        exists|j: int, suffix: Seq<Seq<char>>| match_arms_round_trip(arms, cur, k, tail, j, suffix),
    decreases arms,
{
    match arms {
        Arms::Nil => {
            assert(cur[k] + Seq::<Seq<char>>::empty() =~= cur[k]);
            assert(Seq::<Seq<char>>::empty() + tail =~= tail);
            assert(match_arms_round_trip(arms, cur, k, tail, k, Seq::empty()));
        },
        Arms::Cons(arm, rest) => {
            let mid = find_in_expr(arm.body, cur)->Ok_0;
            lemma_round_trip_match_arms(*rest, mid, k, tail);
            let (j1, suffix_r) = choose|j: int, suffix: Seq<Seq<char>>|
                match_arms_round_trip(*rest, mid, k, tail, j, suffix);
            lemma_round_trip_expr(arm.body, cur, j1, suffix_r + tail);
            let (j0, suffix_b) = choose|j: int, suffix: Seq<Seq<char>>|
                expr_round_trip(arm.body, cur, j1, suffix_r + tail, j, suffix);
            assert((cur[j0] + suffix_b) + suffix_r =~= cur[j0] + (suffix_b + suffix_r));
            assert((suffix_b + suffix_r) + tail =~= suffix_b + (suffix_r + tail));
            assert(match_arms_round_trip(arms, cur, k, tail, j0, suffix_b + suffix_r));
        },
    }
}

/// As [`lemma_round_trip_expr`], for a decision point's branches.
pub proof fn lemma_round_trip_fork_arms(arms: Arms, cur: PathSet, k: int, tail: Seq<Seq<char>>)
    requires
        find_in_fork_arms(arms, cur) is Ok,
        0 <= k < find_in_fork_arms(arms, cur)->Ok_0.len(),
        distinct_seqs(arms.labels()),
        arms.distinct_fork_labels(),
    ensures
        exists|j: int, suffix: Seq<Seq<char>>| fork_arms_round_trip(arms, cur, k, tail, j, suffix),
    decreases arms,
{
    match arms {
        Arms::Nil => {
            assert(false);
        },
        Arms::Cons(arm, rest) => {
            let name = arm.pat->Label_0;
            let extended = extend_all(cur, name@);
            let ps1 = find_in_expr(arm.body, extended)->Ok_0;
            let ps2 = find_in_fork_arms(*rest, cur)->Ok_0;
            assert(arms.labels() == seq![name@] + rest.labels());
            lemma_distinct_cons(name@, rest.labels());
            if k < ps1.len() {
                lemma_round_trip_expr(arm.body, extended, k, tail);
                let (j1, suffix1) = choose|j: int, suffix: Seq<Seq<char>>|
                    expr_round_trip(arm.body, extended, k, tail, j, suffix);
                assert(extended[j1] == cur[j1].push(name@));
                assert(cur[j1].push(name@) =~= cur[j1] + seq![name@]);
                let suffix = seq![name@] + suffix1;
                assert((cur[j1] + seq![name@]) + suffix1 =~= cur[j1] + suffix);
                assert(suffix[0] == name@);
                assert(arms.labels()[0] == name@);
                assert(arms.labels().contains(name@));
                assert(suffix.drop_first() =~= suffix1);
                assert((ps1 + ps2)[k] == ps1[k]);
                assert(extended.len() == cur.len());
                assert(0 <= j1 < cur.len());
                assert(find_in_fork_arms(arms, cur)->Ok_0[k] == cur[j1] + suffix);
                let pair1 = rewrite_expr(arm.body, suffix1 + tail)->Ok_0;
                assert(rewrite_expr(arm.body, suffix.drop_first() + tail) == rewrite_expr(
                    arm.body,
                    suffix1 + tail,
                ));
                assert(rewrite_fork_arms(arms, suffix[0], suffix.drop_first() + tail) == Ok::<
                    (Expr, Seq<Seq<char>>),
                    Error,
                >((block_of(pair1.0), pair1.1)));
                assert(Exprs::Nil.fork_free());
                assert(Exprs::Cons(Box::new(pair1.0), Box::new(Exprs::Nil)).fork_free());
                assert(block_of(pair1.0).fork_free());
                assert(fork_arms_round_trip(arms, cur, k, tail, j1, suffix));
            } else {
                let k2 = k - ps1.len();
                lemma_round_trip_fork_arms(*rest, cur, k2, tail);
                let (j, suffix) = choose|j: int, suffix: Seq<Seq<char>>|
                    fork_arms_round_trip(*rest, cur, k2, tail, j, suffix);
                assert((ps1 + ps2)[k] == ps2[k2]);
                let l2 = suffix[0];
                let i2 = choose|i: int| 0 <= i < rest.labels().len() && rest.labels()[i] == l2;
                assert(arms.labels()[i2 + 1] == l2);
                assert(name@ != l2);
                assert(fork_arms_round_trip(arms, cur, k, tail, j, suffix));
            }
        },
    }
}

/// When every path's rewrite succeeds, the driver emits one variant per
/// path, in path order, with the derived name and the rewritten body.
proof fn lemma_variants_for_ok(body: Expr, base: Seq<char>, ps: PathSet)
    requires
        forall|i: int| 0 <= i < ps.len() ==> rewrite_expr(
            body,
            (#[trigger] ps[i]).drop_first(),
        ) is Ok,
    ensures
        variants_for(body, base, ps) matches Ok(vs) && vs.len() == ps.len() && forall|i: int|
            0 <= i < ps.len() ==> #[trigger] vs[i] == (Variant {
                name: join_name(base, ps[i].drop_first()),
                body: rewrite_expr(body, ps[i].drop_first())->Ok_0.0,
            }),
    decreases ps.len(),
{
    if ps.len() == 0 {
    } else {
        assert(forall|i: int| 0 <= i < ps.drop_first().len() ==> #[trigger] ps.drop_first()[i]
            == ps[i + 1]);
        lemma_variants_for_ok(body, base, ps.drop_first());
        let v0 = Variant {
            name: join_name(base, ps[0].drop_first()),
            body: rewrite_expr(body, ps[0].drop_first())->Ok_0.0,
        };
        let vs_rest = variants_for(body, base, ps.drop_first())->Ok_0;
        let vs = variants_for(body, base, ps)->Ok_0;
        assert(vs == seq![v0] + vs_rest);
        assert(forall|i: int| 0 <= i < ps.len() ==> #[trigger] vs[i] == (if i == 0 {
            v0
        } else {
            vs_rest[i - 1]
        }));
    }
}

/// Round trip at the driver: on a tree whose decision points carry pairwise
/// distinct labels, rewriting with the paths the finder produced never fails
/// — the transform succeeds, emits one variant per discovered path, derives
/// each name from that path's labels, and leaves no decision point in any
/// emitted body.
pub proof fn lemma_round_trip(f: FnItem)
    requires
        find_in_expr(f.body, seed(f)) is Ok,
        f.body.distinct_fork_labels(),
    ensures
        crossroads_spec(f) matches Ok(vs) && vs.len() == find_in_expr(f.body, seed(f))->Ok_0.len()
            && forall|i: int| 0 <= i < vs.len() ==> (#[trigger] vs[i]).body.fork_free()
            && vs[i].name == join_name(
            f.name@,
            find_in_expr(f.body, seed(f))->Ok_0[i].drop_first(),
        ),
{
    let ps = find_in_expr(f.body, seed(f))->Ok_0;
    assert forall|i: int| 0 <= i < ps.len() implies rewrite_expr(
        f.body,
        (#[trigger] ps[i]).drop_first(),
    ) matches Ok(pair) && pair.0.fork_free() by {
        lemma_round_trip_expr(f.body, seed(f), i, Seq::empty());
        let (j, suffix) = choose|j: int, suffix: Seq<Seq<char>>|
            expr_round_trip(f.body, seed(f), i, Seq::empty(), j, suffix);
        assert(j == 0);
        assert(ps[i] == seed(f)[0] + suffix);
        assert(ps[i].drop_first() =~= suffix);
        assert(suffix + Seq::<Seq<char>>::empty() =~= suffix);
    }
    lemma_variants_for_ok(f.body, f.name@, ps);
}

/// Success is owed exactly to well-formed inputs: on a tree whose decision
/// points all have at least one branch and only bare-identifier branch
/// patterns, and carry pairwise distinct labels, the transform returns
/// variants; on a tree with a malformed decision point it returns exactly
/// the malformed-decision-point error and emits nothing.
pub proof fn lemma_success(f: FnItem)
    requires
        f.body.valid_forks(),
        f.body.distinct_fork_labels(),
    ensures
        crossroads_spec(f) is Ok,
{
    lemma_find_ok_iff_valid(f.body, seed(f));
    lemma_round_trip(f);
}

/// A malformed decision point — one with no branch, or with a branch pattern
/// that is no bare identifier — aborts the whole transform with exactly the
/// malformed-decision-point error; no variants are emitted.
pub proof fn lemma_malformed(f: FnItem)
    requires
        !f.body.valid_forks(),
    ensures
        crossroads_spec(f) == Err::<Seq<Variant>, Error>(Error::MalformedDecisionPoint),
{
    lemma_find_ok_iff_valid(f.body, seed(f));
}

/// Name derivation is order-stable: two runs of the transform on the same
/// input yield the same number of variants, with identical names in an
/// identical order and identical bodies.
pub proof fn lemma_order_stable(f: FnItem, out1: Seq<FnItem>, out2: Seq<FnItem>)
    requires
        crossroads_spec(f) == Ok::<Seq<Variant>, Error>(item_variants(out1)),
        crossroads_spec(f) == Ok::<Seq<Variant>, Error>(item_variants(out2)),
    ensures
        out1.len() == out2.len(),
        forall|i: int| 0 <= i < out1.len() ==> (#[trigger] out1[i]).name@ == out2[i].name@
            && out1[i].body == out2[i].body,
{
    assert(item_variants(out1) == item_variants(out2));
    assert(item_variants(out1).len() == out1.len());
    assert(item_variants(out2).len() == out2.len());
    assert forall|i: int| 0 <= i < out1.len() implies (#[trigger] out1[i]).name@ == out2[i].name@
        && out1[i].body == out2[i].body by {
        assert(item_variants(out1)[i] == (Variant { name: out1[i].name@, body: out1[i].body }));
        assert(item_variants(out2)[i] == (Variant { name: out2[i].name@, body: out2[i].body }));
    }
}

/// A *simple* decision point: a `match` on the marker with at least one
/// branch, every branch labelled by a bare identifier, and no further
/// decision point inside any branch body.
pub open spec fn simple_fork(e: Expr) -> bool {
    &&& e matches Expr::Match { scrutinee, arms }
    &&& *scrutinee is Marker
    &&& !(arms is Nil)
    &&& arms.valid_fork_arms()
    &&& arms.fork_free()
}

/// The branch count of a decision point.
pub open spec fn fork_width(e: Expr) -> nat {
    e->arms.len()
}

/// Each branch of a simple decision point contributes one copy of every
/// incoming path, so the branches multiply the path set by their count.
proof fn lemma_simple_fork_arms_count(arms: Arms, cur: PathSet)
    requires
        arms.valid_fork_arms(),
        arms.fork_free(),
    ensures
        find_in_fork_arms(arms, cur) matches Ok(ps) && ps.len() == arms.len() * cur.len(),
    decreases arms,
{
    match arms {
        Arms::Nil => {
            assert(arms.len() == 0);
            assert(0 * cur.len() == 0) by (nonlinear_arith);
        },
        Arms::Cons(arm, rest) => {
            let name = arm.pat->Label_0;
            let extended = extend_all(cur, name@);
            lemma_fork_free_find(arm.body, extended);
            assert(extended.len() == cur.len());
            lemma_simple_fork_arms_count(*rest, cur);
            assert((1 + rest.len()) * cur.len() == cur.len() + rest.len() * cur.len())
                by (nonlinear_arith);
        },
    }
}

/// One simple decision point with `b` branches turns an incoming path set of
/// size `c` into one of size `b * c`.
pub proof fn lemma_simple_fork_count(e: Expr, cur: PathSet)
    requires
        simple_fork(e),
    ensures
        find_in_expr(e, cur) matches Ok(ps) && ps.len() == fork_width(e) * cur.len(),
{
    match e {
        Expr::Match { scrutinee: _, arms } => {
            lemma_simple_fork_arms_count(arms, cur);
        },
        _ => {
            assert(false);
        },
    }
}

/// Every expression of the list is a simple decision point.
pub open spec fn all_simple_forks(es: Exprs) -> bool
    decreases es,
{
    match es {
        Exprs::Nil => true,
        Exprs::Cons(first, rest) => simple_fork(*first) && all_simple_forks(*rest),
    }
}

/// The product of the branch counts of the listed decision points.
pub open spec fn fork_width_product(es: Exprs) -> nat
    decreases es,
{
    match es {
        Exprs::Nil => 1,
        Exprs::Cons(first, rest) => fork_width(*first) * fork_width_product(*rest),
    }
}

/// Independent sibling decision points compose by cross product: walking a
/// list of simple decision points with branch counts `b_1 .. b_k` multiplies
/// the incoming path set by `b_1 * b_2 * ... * b_k`.
pub proof fn lemma_sibling_cross_product(es: Exprs, cur: PathSet)
    requires
        all_simple_forks(es),
    ensures
        find_in_exprs(es, cur) matches Ok(ps) && ps.len() == fork_width_product(es) * cur.len(),
    decreases es,
{
    match es {
        Exprs::Nil => {
            assert(fork_width_product(es) == 1);
            assert(1 * cur.len() == cur.len()) by (nonlinear_arith);
        },
        Exprs::Cons(first, rest) => {
            lemma_simple_fork_count(*first, cur);
            let mid = find_in_expr(*first, cur)->Ok_0;
            lemma_sibling_cross_product(*rest, mid);
            assert(fork_width_product(*rest) * (fork_width(*first) * cur.len()) == (fork_width(
                *first,
            ) * fork_width_product(*rest)) * cur.len()) by (nonlinear_arith);
        },
    }
}

/// For a function whose body is a block of sibling simple decision points
/// with branch counts `b_1 .. b_k`, the number of emitted variants equals
/// `b_1 * b_2 * ... * b_k`.
pub proof fn lemma_variant_count_product(f: FnItem, es: Exprs)
    requires
        f.body == Expr::Block(es),
        all_simple_forks(es),
        f.body.distinct_fork_labels(),
    ensures
        crossroads_spec(f) matches Ok(vs) && vs.len() == fork_width_product(es),
{
    lemma_sibling_cross_product(es, seed(f));
    assert(fork_width_product(es) * seed(f).len() == fork_width_product(es)) by (nonlinear_arith);
    lemma_round_trip(f);
}

/// Branches of an outer decision point, each labelled and holding either no
/// decision point at all or one simple decision point as its whole body.
pub open spec fn nested_fork_arms(arms: Arms) -> bool
    decreases arms,
{
    match arms {
        Arms::Nil => true,
        Arms::Cons(arm, rest) => {
            &&& arm.pat is Label
            &&& (arm.body.fork_free() || simple_fork(arm.body))
            &&& nested_fork_arms(*rest)
        },
    }
}

/// The number of leaf outcomes of such branches: a branch without a nested
/// decision point contributes one, a branch holding a nested decision point
/// contributes that point's branch count.  For an outer point with `m`
/// branches of which exactly one nests an inner point with `n` branches,
/// this is `(m - 1) + n`.
pub open spec fn leaf_count(arms: Arms) -> nat
    decreases arms,
{
    match arms {
        Arms::Nil => 0,
        Arms::Cons(arm, rest) => (if arm.body.fork_free() {
            1 as nat
        } else {
            fork_width(arm.body)
        }) + leaf_count(*rest),
    }
}

/// A decision point nested inside one branch of an outer decision point
/// multiplies only the paths that chose that branch: the walk of the outer
/// branches turns an incoming path set of size `c` into one of size
/// `leaf_count * c`.
pub proof fn lemma_nested_fork_count(arms: Arms, cur: PathSet)
    requires
        nested_fork_arms(arms),
    ensures
        find_in_fork_arms(arms, cur) matches Ok(ps) && ps.len() == leaf_count(arms) * cur.len(),
    decreases arms,
{
    match arms {
        Arms::Nil => {
            assert(leaf_count(arms) == 0);
            assert(0 * cur.len() == 0) by (nonlinear_arith);
        },
        Arms::Cons(arm, rest) => {
            let name = arm.pat->Label_0;
            let extended = extend_all(cur, name@);
            assert(extended.len() == cur.len());
            let first_count: nat = if arm.body.fork_free() {
                lemma_fork_free_find(arm.body, extended);
                1 as nat
            } else {
                lemma_simple_fork_count(arm.body, extended);
                fork_width(arm.body)
            };
            assert(find_in_expr(arm.body, extended) matches Ok(ps1) && ps1.len() == first_count
                * cur.len()) by {
                if arm.body.fork_free() {
                    assert(1 * cur.len() == cur.len());
                } else {
                    assert(fork_width(arm.body) * extended.len() == fork_width(arm.body)
                        * cur.len());
                }
            }
            lemma_nested_fork_count(*rest, cur);
            assert((first_count + leaf_count(*rest)) * cur.len() == first_count * cur.len()
                + leaf_count(*rest) * cur.len()) by (nonlinear_arith);
        },
    }
}

/// For a function whose body is one outer decision point with `m` branches,
/// one of which holds a nested simple decision point with `n` branches while
/// the others hold no decision point, the number of emitted variants equals
/// `(m - 1) + n`: the leaf count of the outer branches.
pub proof fn lemma_variant_count_nested(f: FnItem, arms: Arms)
    requires
        f.body == (Expr::Match { scrutinee: Box::new(Expr::Marker), arms: arms }),
        !(arms is Nil),
        nested_fork_arms(arms),
        f.body.distinct_fork_labels(),
    ensures
        crossroads_spec(f) matches Ok(vs) && vs.len() == leaf_count(arms),
{
    lemma_nested_fork_count(arms, seed(f));
    assert(leaf_count(arms) * seed(f).len() == leaf_count(arms)) by (nonlinear_arith);
    lemma_round_trip(f);
}

/// A function without decision points is passed through: the transform emits
/// exactly one variant, name-identical and body-identical to the input.
pub proof fn lemma_passthrough(f: FnItem)
    requires
        f.body.fork_free(),
    ensures
        crossroads_spec(f) == Ok::<Seq<Variant>, Error>(
            seq![Variant { name: f.name@, body: f.body }],
        ),
{
    lemma_fork_free_find(f.body, seed(f));
    let ps = seed(f);
    let labels = ps[0].drop_first();
    assert(labels =~= Seq::<Seq<char>>::empty());
    lemma_fork_free_rewrite(f.body, labels);
    assert(join_name(f.name@, labels) == f.name@);
    assert(ps.drop_first() =~= Seq::<Path>::empty());
    assert(variants_for(f.body, f.name@, ps.drop_first()) == Ok::<Seq<Variant>, Error>(
        Seq::empty(),
    ));
    let v = Variant { name: f.name@, body: f.body };
    assert(seq![v] + Seq::<Variant>::empty() =~= seq![v]);
}

} // verus!
