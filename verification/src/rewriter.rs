//! The rewriter.
//!
//! Given one label path (the root segment already dropped), a second walk of
//! the body — in exactly the pre-order, left-to-right order the finder used —
//! consumes the path front to back as a queue: each decision point pops the
//! front label, selects the first branch carrying that label, and is replaced
//! by that branch's body wrapped in a block, the walk continuing straight
//! into the spliced-in body so that nested decision points consume the next
//! labels of the same queue.  Every other node is rebuilt unchanged around
//! its rewritten children.
//!
//! The spec functions define that rewrite as a total function from tree and
//! queue to rewritten tree and remaining queue, or error; [`Rewriter`] is the
//! executable walker, proved to compute exactly that function.

use vstd::prelude::*;

use crate::tree::{Arm, Arms, Error, Expr, Exprs, Pat};

verus! {

/// The rewrite of `e` under the queue `path`: the rewritten tree and the
/// labels left over, or the error that aborts the rewrite.
pub open spec fn rewrite_expr(e: Expr, path: Seq<Seq<char>>) -> Result<
    (Expr, Seq<Seq<char>>),
    Error,
>
    decreases e,
{
    match e {
        Expr::Marker => Ok((e, path)),
        Expr::Match { scrutinee, arms } => {
            if *scrutinee is Marker {
                if path.len() == 0 {
                    Err(Error::PathRewriteInconsistency)
                } else if arms is Nil {
                    Err(Error::MalformedDecisionPoint)
                } else {
                    rewrite_fork_arms(arms, path[0], path.drop_first())
                }
            } else {
                match rewrite_expr(*scrutinee, path) {
                    Ok((scrutinee2, path1)) => match rewrite_match_arms(arms, path1) {
                        Ok((arms2, path2)) => Ok(
                            (Expr::Match { scrutinee: Box::new(scrutinee2), arms: arms2 }, path2),
                        ),
                        Err(er) => Err(er),
                    },
                    Err(er) => Err(er),
                }
            }
        },
        Expr::Lit(_) => Ok((e, path)),
        Expr::Block(stmts) => match rewrite_exprs(stmts, path) {
            Ok((stmts2, path1)) => Ok((Expr::Block(stmts2), path1)),
            Err(er) => Err(er),
        },
        Expr::Binary(op, left, right) => match rewrite_expr(*left, path) {
            Ok((left2, path1)) => match rewrite_expr(*right, path1) {
                Ok((right2, path2)) => Ok(
                    (Expr::Binary(op, Box::new(left2), Box::new(right2)), path2),
                ),
                Err(er) => Err(er),
            },
            Err(er) => Err(er),
        },
        Expr::Ret(value) => match rewrite_expr(*value, path) {
            Ok((value2, path1)) => Ok((Expr::Ret(Box::new(value2)), path1)),
            Err(er) => Err(er),
        },
        Expr::Other(children) => match rewrite_exprs(children, path) {
            Ok((children2, path1)) => Ok((Expr::Other(children2), path1)),
            Err(er) => Err(er),
        },
    }
}

/// The rewrite of a sibling list, threading the queue left to right.
pub open spec fn rewrite_exprs(es: Exprs, path: Seq<Seq<char>>) -> Result<
    (Exprs, Seq<Seq<char>>),
    Error,
>
    decreases es,
{
    match es {
        Exprs::Nil => Ok((es, path)),
        Exprs::Cons(first, rest) => match rewrite_expr(*first, path) {
            Ok((first2, path1)) => match rewrite_exprs(*rest, path1) {
                Ok((rest2, path2)) => Ok(
                    (Exprs::Cons(Box::new(first2), Box::new(rest2)), path2),
                ),
                Err(er) => Err(er),
            },
            Err(er) => Err(er),
        },
    }
}

/// Branch selection at a decision point whose popped label is `label` and
/// whose remaining queue is `path`: the first branch labelled `label` wins,
/// its body is rewritten under `path` and wrapped in a block.  A branch
/// pattern that is no bare identifier is malformed; a label naming no branch
/// is an inconsistency.
pub open spec fn rewrite_fork_arms(arms: Arms, label: Seq<char>, path: Seq<Seq<char>>) -> Result<
    (Expr, Seq<Seq<char>>),
    Error,
>
    decreases arms,
{
    match arms {
        Arms::Nil => Err(Error::PathRewriteInconsistency),
        Arms::Cons(arm, rest) => match arm.pat {
            Pat::Label(name) => if name@ == label {
                match rewrite_expr(arm.body, path) {
                    Ok((body2, path1)) => Ok((block_of(body2), path1)),
                    Err(er) => Err(er),
                }
            } else {
                rewrite_fork_arms(*rest, label, path)
            },
            Pat::Other => Err(Error::MalformedDecisionPoint),
        },
    }
}

/// The rewrite of an ordinary `match`'s branches, threading the queue through
/// the branch bodies in order; patterns stay as they are.
pub open spec fn rewrite_match_arms(arms: Arms, path: Seq<Seq<char>>) -> Result<
    (Arms, Seq<Seq<char>>),
    Error,
>
    decreases arms,
{
    match arms {
        Arms::Nil => Ok((arms, path)),
        Arms::Cons(arm, rest) => match rewrite_expr(arm.body, path) {
            Ok((body2, path1)) => match rewrite_match_arms(*rest, path1) {
                Ok((rest2, path2)) => Ok(
                    (
                        Arms::Cons(
                            Box::new(Arm { pat: arm.pat, body: body2 }),
                            Box::new(rest2),
                        ),
                        path2,
                    ),
                ),
                Err(er) => Err(er),
            },
            Err(er) => Err(er),
        },
    }
}

/// A block holding exactly one expression: the shape a chosen branch body is
/// wrapped in when it replaces a decision point.
pub open spec fn block_of(e: Expr) -> Expr {
    Expr::Block(Exprs::Cons(Box::new(e), Box::new(Exprs::Nil)))
}

/// The executable rewriter.  It holds the labels of one path and consumes
/// them front to back while visiting expressions.
pub struct Rewriter {
    along_path: Vec<String>,
    pos: usize,
}

impl Rewriter {
    /// The labels consumed so far are a front portion of the held path.
    #[verifier::type_invariant]
    spec fn wf(self) -> bool {
        self.pos <= self.along_path.len()
    }
}

impl View for Rewriter {
    type V = Seq<Seq<char>>;

    closed spec fn view(&self) -> Seq<Seq<char>> {
        self.along_path.deep_view().skip(self.pos as int)
    }
}

impl Rewriter {
    /// A rewriter that will resolve decision points along the given path.
    pub fn new(path: Vec<String>) -> (r: Rewriter)
        ensures
            r@ == path.deep_view(),
    {
        let r = Rewriter { along_path: path, pos: 0 };
        proof {
            assert(r@ =~= r.along_path.deep_view());
        }
        r
    }

    /// Visit one expression: it is replaced by its rewrite under the labels
    /// still held, and the labels the rewrite consumed are given up.  On
    /// failure the expression is left unchanged.
    pub fn visit_expr_mut(&mut self, expr: &mut Expr) -> (r: Result<(), Error>)
        ensures
            r matches Ok(_) ==> rewrite_expr(*old(expr), old(self)@) == Ok::<
                (Expr, Seq<Seq<char>>),
                Error,
            >((*final(expr), final(self)@)),
            r matches Err(er) ==> rewrite_expr(*old(expr), old(self)@) == Err::<
                (Expr, Seq<Seq<char>>),
                Error,
            >(er) && *final(expr) == *old(expr) && final(self)@ == old(self)@,
    {
        proof {
            use_type_invariant(&*self);
        }
        match rw_expr(expr, &self.along_path, self.pos) {
            Ok((expr2, pos2)) => {
                *expr = expr2;
                self.pos = pos2;
                Ok(())
            },
            Err(er) => Err(er),
        }
    }
}

/// The verified rewrite of one expression, reading the queue from `q` at
/// position `pos`.
fn rw_expr(e: &Expr, q: &Vec<String>, pos: usize) -> (r: Result<(Expr, usize), Error>)
    requires
        pos <= q.len(),
    ensures
        r matches Ok(p) ==> p.1 <= q.len() && rewrite_expr(*e, q.deep_view().skip(pos as int))
            == Ok::<(Expr, Seq<Seq<char>>), Error>((p.0, q.deep_view().skip(p.1 as int))),
        r matches Err(er) ==> rewrite_expr(*e, q.deep_view().skip(pos as int)) == Err::<
            (Expr, Seq<Seq<char>>),
            Error,
        >(er),
    decreases *e,
{
    match e {
        Expr::Marker => Ok((Expr::Marker, pos)),
        Expr::Match { scrutinee, arms } => {
            if scrutinee.is_marker() {
                if pos == q.len() {
                    proof {
                        assert(q.deep_view().skip(pos as int).len() == 0);
                    }
                    Err(Error::PathRewriteInconsistency)
                } else {
                    match arms {
                        Arms::Nil => Err(Error::MalformedDecisionPoint),
                        Arms::Cons(_, _) => {
                            proof {
                                assert(q.deep_view().skip(pos as int)[0] == q.deep_view()[
                                    pos as int]);
                                assert(q.deep_view().skip(pos as int).drop_first()
                                    =~= q.deep_view().skip(pos as int + 1));
                            }
                            rw_fork_arms(arms, &q[pos], q, pos + 1)
                        },
                    }
                }
            } else {
                match rw_expr(scrutinee, q, pos) {
                    Ok((scrutinee2, pos1)) => match rw_match_arms(arms, q, pos1) {
                        Ok((arms2, pos2)) => Ok(
                            (
                                Expr::Match { scrutinee: Box::new(scrutinee2), arms: arms2 },
                                pos2,
                            ),
                        ),
                        Err(er) => Err(er),
                    },
                    Err(er) => Err(er),
                }
            }
        },
        Expr::Lit(value) => Ok((Expr::Lit(*value), pos)),
        Expr::Block(stmts) => match rw_exprs(stmts, q, pos) {
            Ok((stmts2, pos1)) => Ok((Expr::Block(stmts2), pos1)),
            Err(er) => Err(er),
        },
        Expr::Binary(op, left, right) => match rw_expr(left, q, pos) {
            Ok((left2, pos1)) => match rw_expr(right, q, pos1) {
                Ok((right2, pos2)) => Ok(
                    (Expr::Binary(*op, Box::new(left2), Box::new(right2)), pos2),
                ),
                Err(er) => Err(er),
            },
            Err(er) => Err(er),
        },
        Expr::Ret(value) => match rw_expr(value, q, pos) {
            Ok((value2, pos1)) => Ok((Expr::Ret(Box::new(value2)), pos1)),
            Err(er) => Err(er),
        },
        Expr::Other(children) => match rw_exprs(children, q, pos) {
            Ok((children2, pos1)) => Ok((Expr::Other(children2), pos1)),
            Err(er) => Err(er),
        },
    }
}

/// The verified rewrite of a sibling list.
fn rw_exprs(es: &Exprs, q: &Vec<String>, pos: usize) -> (r: Result<(Exprs, usize), Error>)
    requires
        pos <= q.len(),
    ensures
        r matches Ok(p) ==> p.1 <= q.len() && rewrite_exprs(*es, q.deep_view().skip(pos as int))
            == Ok::<(Exprs, Seq<Seq<char>>), Error>((p.0, q.deep_view().skip(p.1 as int))),
        r matches Err(er) ==> rewrite_exprs(*es, q.deep_view().skip(pos as int)) == Err::<
            (Exprs, Seq<Seq<char>>),
            Error,
        >(er),
    decreases *es,
{
    match es {
        Exprs::Nil => Ok((Exprs::Nil, pos)),
        Exprs::Cons(first, rest) => match rw_expr(first, q, pos) {
            Ok((first2, pos1)) => match rw_exprs(rest, q, pos1) {
                Ok((rest2, pos2)) => Ok(
                    (Exprs::Cons(Box::new(first2), Box::new(rest2)), pos2),
                ),
                Err(er) => Err(er),
            },
            Err(er) => Err(er),
        },
    }
}

/// The verified branch selection at a decision point.
fn rw_fork_arms(arms: &Arms, label: &String, q: &Vec<String>, pos: usize) -> (r: Result<
    (Expr, usize),
    Error,
>)
    requires
        pos <= q.len(),
    ensures
        r matches Ok(p) ==> p.1 <= q.len() && rewrite_fork_arms(
            *arms,
            label@,
            q.deep_view().skip(pos as int),
        ) == Ok::<(Expr, Seq<Seq<char>>), Error>((p.0, q.deep_view().skip(p.1 as int))),
        r matches Err(er) ==> rewrite_fork_arms(*arms, label@, q.deep_view().skip(pos as int))
            == Err::<(Expr, Seq<Seq<char>>), Error>(er),
    decreases *arms,
{
    match arms {
        Arms::Nil => Err(Error::PathRewriteInconsistency),
        Arms::Cons(arm, rest) => match &arm.pat {
            Pat::Label(name) => if name.eq(label) {
                match rw_expr(&arm.body, q, pos) {
                    Ok((body2, pos1)) => Ok(
                        (
                            Expr::Block(
                                Exprs::Cons(Box::new(body2), Box::new(Exprs::Nil)),
                            ),
                            pos1,
                        ),
                    ),
                    Err(er) => Err(er),
                }
            } else {
                rw_fork_arms(rest, label, q, pos)
            },
            Pat::Other => Err(Error::MalformedDecisionPoint),
        },
    }
}

/// The verified rewrite of an ordinary `match`'s branches.
fn rw_match_arms(arms: &Arms, q: &Vec<String>, pos: usize) -> (r: Result<(Arms, usize), Error>)
    requires
        pos <= q.len(),
    ensures
        r matches Ok(p) ==> p.1 <= q.len() && rewrite_match_arms(
            *arms,
            q.deep_view().skip(pos as int),
        ) == Ok::<(Arms, Seq<Seq<char>>), Error>((p.0, q.deep_view().skip(p.1 as int))),
        r matches Err(er) ==> rewrite_match_arms(*arms, q.deep_view().skip(pos as int)) == Err::<
            (Arms, Seq<Seq<char>>),
            Error,
        >(er),
    decreases *arms,
{
    match arms {
        Arms::Nil => Ok((Arms::Nil, pos)),
        Arms::Cons(arm, rest) => match rw_expr(&arm.body, q, pos) {
            Ok((body2, pos1)) => match rw_match_arms(rest, q, pos1) {
                Ok((rest2, pos2)) => Ok(
                    (
                        Arms::Cons(
                            Box::new(Arm { pat: arm.pat.duplicate(), body: body2 }),
                            Box::new(rest2),
                        ),
                        pos2,
                    ),
                ),
                Err(er) => Err(er),
            },
            Err(er) => Err(er),
        },
    }
}

} // verus!
