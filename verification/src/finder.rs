//! The path finder.
//!
//! One pre-order, left-to-right walk over a body discovers every decision
//! point and produces the complete set of label paths through them.  The walk
//! threads a *current path set* through the siblings it visits: an ordinary
//! node passes the set on to its children unchanged, which is how independent
//! decision points compose by cross product, while a decision point replaces
//! the set by the concatenation, over its branches, of the walk of each
//! branch body seeded with every current path extended by that branch's
//! label.
//!
//! The spec functions below define that walk as a total function from tree
//! and incoming path set to outgoing path set or error; [`PathFinder`] is the
//! executable walker, proved to compute exactly that function.

use vstd::prelude::*;

use crate::paths::{extend_all, extend_paths, lemma_deep_view_concat, lemma_deep_view_empty,
    paths_result_view, PathSet};
use crate::tree::{Arms, Error, Expr, Exprs, Pat};

verus! {

/// The outgoing path set of the walk of `e` seeded with `cur`, or the error
/// that aborts the walk.
pub open spec fn find_in_expr(e: Expr, cur: PathSet) -> Result<PathSet, Error>
    decreases e,
{
    match e {
        Expr::Marker => Ok(cur),
        Expr::Match { scrutinee, arms } => {
            if *scrutinee is Marker {
                if arms is Nil {
                    Err(Error::MalformedDecisionPoint)
                } else {
                    find_in_fork_arms(arms, cur)
                }
            } else {
                match find_in_expr(*scrutinee, cur) {
                    Ok(cur1) => find_in_match_arms(arms, cur1),
                    Err(er) => Err(er),
                }
            }
        },
        Expr::Lit(_) => Ok(cur),
        Expr::Block(stmts) => find_in_exprs(stmts, cur),
        Expr::Binary(_, left, right) => match find_in_expr(*left, cur) {
            Ok(cur1) => find_in_expr(*right, cur1),
            Err(er) => Err(er),
        },
        Expr::Ret(value) => find_in_expr(*value, cur),
        Expr::Other(children) => find_in_exprs(children, cur),
    }
}

/// The walk of a sibling list, threading the path set left to right.
pub open spec fn find_in_exprs(es: Exprs, cur: PathSet) -> Result<PathSet, Error>
    decreases es,
{
    match es {
        Exprs::Nil => Ok(cur),
        Exprs::Cons(first, rest) => match find_in_expr(*first, cur) {
            Ok(cur1) => find_in_exprs(*rest, cur1),
            Err(er) => Err(er),
        },
    }
}

/// The walk of a decision point's branches: each branch must be labelled by a
/// bare identifier; every current path is extended with the label and the
/// branch body is walked with that extended set; the branches' outcomes are
/// concatenated in branch order.
pub open spec fn find_in_fork_arms(arms: Arms, cur: PathSet) -> Result<PathSet, Error>
    decreases arms,
{
    match arms {
        Arms::Nil => Ok(Seq::empty()),
        Arms::Cons(arm, rest) => match arm.pat {
            Pat::Label(name) => match find_in_expr(arm.body, extend_all(cur, name@)) {
                Ok(ps1) => match find_in_fork_arms(*rest, cur) {
                    Ok(ps2) => Ok(ps1 + ps2),
                    Err(er) => Err(er),
                },
                Err(er) => Err(er),
            },
            Pat::Other => Err(Error::MalformedDecisionPoint),
        },
    }
}

/// The walk of an ordinary `match`'s branches, threading the path set through
/// the branch bodies in order.
pub open spec fn find_in_match_arms(arms: Arms, cur: PathSet) -> Result<PathSet, Error>
    decreases arms,
{
    match arms {
        Arms::Nil => Ok(cur),
        Arms::Cons(arm, rest) => match find_in_expr(arm.body, cur) {
            Ok(cur1) => find_in_match_arms(*rest, cur1),
            Err(er) => Err(er),
        },
    }
}

/// The walk only ever extends or copies paths, so a lower bound on the length
/// of every seed path also bounds every discovered path; in particular the
/// implicit root segment is never lost.
pub proof fn lemma_find_expr_keeps_min_len(e: Expr, cur: PathSet, n: int)
    requires
        find_in_expr(e, cur) is Ok,
        forall|j: int| 0 <= j < cur.len() ==> (#[trigger] cur[j]).len() >= n,
    ensures
        forall|j: int| 0 <= j < find_in_expr(e, cur)->Ok_0.len() ==> (#[trigger] find_in_expr(
            e,
            cur,
        )->Ok_0[j]).len() >= n,
    decreases e,
{
    match e {
        Expr::Marker => {},
        Expr::Match { scrutinee, arms } => {
            if *scrutinee is Marker {
                lemma_find_fork_arms_keeps_min_len(arms, cur, n);
            } else {
                lemma_find_expr_keeps_min_len(*scrutinee, cur, n);
                lemma_find_match_arms_keeps_min_len(arms, find_in_expr(*scrutinee, cur)->Ok_0, n);
            }
        },
        Expr::Lit(_) => {},
        Expr::Block(stmts) => {
            lemma_find_exprs_keeps_min_len(stmts, cur, n);
        },
        Expr::Binary(_, left, right) => {
            lemma_find_expr_keeps_min_len(*left, cur, n);
            lemma_find_expr_keeps_min_len(*right, find_in_expr(*left, cur)->Ok_0, n);
        },
        Expr::Ret(value) => {
            lemma_find_expr_keeps_min_len(*value, cur, n);
        },
        Expr::Other(children) => {
            lemma_find_exprs_keeps_min_len(children, cur, n);
        },
    }
}

/// As [`lemma_find_expr_keeps_min_len`], for a sibling list.
pub proof fn lemma_find_exprs_keeps_min_len(es: Exprs, cur: PathSet, n: int)
    requires
        find_in_exprs(es, cur) is Ok,
        forall|j: int| 0 <= j < cur.len() ==> (#[trigger] cur[j]).len() >= n,
    ensures
        forall|j: int| 0 <= j < find_in_exprs(es, cur)->Ok_0.len() ==> (#[trigger] find_in_exprs(
            es,
            cur,
        )->Ok_0[j]).len() >= n,
    decreases es,
{
    match es {
        Exprs::Nil => {},
        Exprs::Cons(first, rest) => {
            lemma_find_expr_keeps_min_len(*first, cur, n);
            lemma_find_exprs_keeps_min_len(*rest, find_in_expr(*first, cur)->Ok_0, n);
        },
    }
}

/// As [`lemma_find_expr_keeps_min_len`], for a decision point's branches.
pub proof fn lemma_find_fork_arms_keeps_min_len(arms: Arms, cur: PathSet, n: int)
    requires
        find_in_fork_arms(arms, cur) is Ok,
        forall|j: int| 0 <= j < cur.len() ==> (#[trigger] cur[j]).len() >= n,
    ensures
        forall|j: int| 0 <= j < find_in_fork_arms(arms, cur)->Ok_0.len() ==> (
        #[trigger] find_in_fork_arms(arms, cur)->Ok_0[j]).len() >= n,
    decreases arms,
{
    match arms {
        Arms::Nil => {},
        Arms::Cons(arm, rest) => {
            match arm.pat {
                Pat::Label(name) => {
                    let extended = extend_all(cur, name@);
                    assert(forall|j: int| 0 <= j < extended.len() ==> (
                    #[trigger] extended[j]).len() >= n);
                    lemma_find_expr_keeps_min_len(arm.body, extended, n);
                    lemma_find_fork_arms_keeps_min_len(*rest, cur, n);
                },
                Pat::Other => {},
            }
        },
    }
}

/// As [`lemma_find_expr_keeps_min_len`], for an ordinary `match`'s branches.
pub proof fn lemma_find_match_arms_keeps_min_len(arms: Arms, cur: PathSet, n: int)
    requires
        find_in_match_arms(arms, cur) is Ok,
        forall|j: int| 0 <= j < cur.len() ==> (#[trigger] cur[j]).len() >= n,
    ensures
        forall|j: int| 0 <= j < find_in_match_arms(arms, cur)->Ok_0.len() ==> (
        #[trigger] find_in_match_arms(arms, cur)->Ok_0[j]).len() >= n,
    decreases arms,
{
    match arms {
        Arms::Nil => {},
        Arms::Cons(arm, rest) => {
            lemma_find_expr_keeps_min_len(arm.body, cur, n);
            lemma_find_match_arms_keeps_min_len(*rest, find_in_expr(arm.body, cur)->Ok_0, n);
        },
    }
}

/// The executable path finder.  It holds the current path set and refines it
/// as it visits expressions.
pub struct PathFinder {
    paths: Vec<Vec<String>>,
}

impl View for PathFinder {
    type V = PathSet;

    closed spec fn view(&self) -> PathSet {
        self.paths.deep_view()
    }
}

impl PathFinder {
    /// A finder seeded with the given path set.
    pub fn new(paths: Vec<Vec<String>>) -> (r: PathFinder)
        ensures
            r@ == paths.deep_view(),
    {
        PathFinder { paths }
    }

    /// The accumulated path set.
    pub fn into_inner(self) -> (r: Vec<Vec<String>>)
        ensures
            r.deep_view() == self@,
    {
        self.paths
    }

    /// Visit one expression: the current path set becomes the outgoing set of
    /// the walk of `expr` seeded with the set held so far.  On a malformed
    /// decision point the walk aborts with the error and the held set is
    /// emptied.
    pub fn visit_expr(&mut self, expr: &Expr) -> (r: Result<(), Error>)
        ensures
            r matches Ok(_) ==> find_in_expr(*expr, old(self)@) == Ok::<PathSet, Error>(
                final(self)@,
            ),
            r matches Err(er) ==> find_in_expr(*expr, old(self)@) == Err::<PathSet, Error>(er)
                && final(self)@ == Seq::<Seq<Seq<char>>>::empty(),
    {
        let mut cur: Vec<Vec<String>> = Vec::new();
        core::mem::swap(&mut cur, &mut self.paths);
        proof {
            lemma_deep_view_empty(self.paths);
        }
        match find_expr(expr, cur) {
            Ok(ps) => {
                self.paths = ps;
                Ok(())
            },
            Err(er) => Err(er),
        }
    }
}

/// The verified walk of one expression.
fn find_expr(e: &Expr, cur: Vec<Vec<String>>) -> (r: Result<Vec<Vec<String>>, Error>)
    ensures
        paths_result_view(r) == find_in_expr(*e, cur.deep_view()),
    decreases *e,
{
    match e {
        Expr::Marker => Ok(cur),
        Expr::Match { scrutinee, arms } => {
            if scrutinee.is_marker() {
                match arms {
                    Arms::Nil => Err(Error::MalformedDecisionPoint),
                    Arms::Cons(_, _) => find_fork_arms(arms, &cur),
                }
            } else {
                match find_expr(scrutinee, cur) {
                    Ok(cur1) => find_match_arms(arms, cur1),
                    Err(er) => Err(er),
                }
            }
        },
        Expr::Lit(_) => Ok(cur),
        Expr::Block(stmts) => find_exprs(stmts, cur),
        Expr::Binary(_, left, right) => match find_expr(left, cur) {
            Ok(cur1) => find_expr(right, cur1),
            Err(er) => Err(er),
        },
        Expr::Ret(value) => find_expr(value, cur),
        Expr::Other(children) => find_exprs(children, cur),
    }
}

/// The verified walk of a sibling list.
fn find_exprs(es: &Exprs, cur: Vec<Vec<String>>) -> (r: Result<Vec<Vec<String>>, Error>)
    ensures
        paths_result_view(r) == find_in_exprs(*es, cur.deep_view()),
    decreases *es,
{
    match es {
        Exprs::Nil => Ok(cur),
        Exprs::Cons(first, rest) => match find_expr(first, cur) {
            Ok(cur1) => find_exprs(rest, cur1),
            Err(er) => Err(er),
        },
    }
}

/// The verified walk of a decision point's branches.
fn find_fork_arms(arms: &Arms, cur: &Vec<Vec<String>>) -> (r: Result<Vec<Vec<String>>, Error>)
    ensures
        paths_result_view(r) == find_in_fork_arms(*arms, cur.deep_view()),
    decreases *arms,
{
    match arms {
        Arms::Nil => {
            let out: Vec<Vec<String>> = Vec::new();
            proof {
                lemma_deep_view_empty(out);
            }
            Ok(out)
        },
        Arms::Cons(arm, rest) => match &arm.pat {
            Pat::Label(name) => {
                let extended = extend_paths(cur, name);
                match find_expr(&arm.body, extended) {
                    Ok(mut ps1) => match find_fork_arms(rest, cur) {
                        Ok(mut ps2) => {
                            let ghost left = ps1;
                            let ghost right = ps2;
                            ps1.append(&mut ps2);
                            proof {
                                lemma_deep_view_concat(left, right, ps1);
                            }
                            Ok(ps1)
                        },
                        Err(er) => Err(er),
                    },
                    Err(er) => Err(er),
                }
            },
            Pat::Other => Err(Error::MalformedDecisionPoint),
        },
    }
}

/// The verified walk of an ordinary `match`'s branches.
fn find_match_arms(arms: &Arms, cur: Vec<Vec<String>>) -> (r: Result<Vec<Vec<String>>, Error>)
    ensures
        paths_result_view(r) == find_in_match_arms(*arms, cur.deep_view()),
    decreases *arms,
{
    match arms {
        Arms::Nil => Ok(cur),
        Arms::Cons(arm, rest) => match find_expr(&arm.body, cur) {
            Ok(cur1) => find_match_arms(rest, cur1),
            Err(er) => Err(er),
        },
    }
}

} // verus!
