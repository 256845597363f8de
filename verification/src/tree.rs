//! The expression tree the transform operates on, together with the spec-level
//! predicates that classify its nodes.
//!
//! The tree is a closed tagged-variant type: the transform recognises exactly
//! two shapes — the bare marker invocation and a `match` whose scrutinee is
//! that marker (a *decision point*) — and treats every other node as ordinary
//! code whose children are traversed left to right.  Child lists are spelled
//! as cons lists so that the whole tree is one inductive datatype and spec
//! functions can both take it apart and build it up.

use vstd::prelude::*;

verus! {

/// The errors the transform can surface.
#[derive(Clone, Copy, Debug, PartialEq, Eq, Structural)]
pub enum Error {
    /// A decision point has no branch at all, or one of its branch patterns
    /// is not a bare identifier.  The input is malformed; no variants are
    /// emitted for the function.
    MalformedDecisionPoint,
    /// While resolving a path, a decision point was reached with an exhausted
    /// label queue, or the front label named no branch of the decision point.
    /// The path and the tree are inconsistent, which cannot happen for a path
    /// the finder produced on the same tree.
    PathRewriteInconsistency,
}

/// The binary operators recognised as ordinary two-child nodes.
#[derive(Clone, Copy, Debug, PartialEq, Eq, Structural)]
pub enum BinOp {
    Add,
    Mul,
}

/// A branch pattern of a `match`.
#[derive(Debug, PartialEq, Eq)]
pub enum Pat {
    /// A bare identifier.  Only this shape may label a decision-point branch.
    Label(String),
    /// Any other pattern (a literal, a wildcard, a destructuring).  Ordinary
    /// `match` nodes may use it freely; on a decision point it is fatal.
    Other,
}

/// One branch of a `match`: a pattern and the branch's body.
#[derive(Debug, PartialEq, Eq)]
pub struct Arm {
    pub pat: Pat,
    pub body: Expr,
}

/// An ordered list of `match` branches.
#[derive(Debug, PartialEq, Eq)]
pub enum Arms {
    Nil,
    Cons(Box<Arm>, Box<Arms>),
}

/// An ordered list of sibling expressions (a block's statements, or the
/// children of an unrecognised node).
#[derive(Debug, PartialEq, Eq)]
pub enum Exprs {
    Nil,
    Cons(Box<Expr>, Box<Exprs>),
}

/// An expression tree node.
#[derive(Debug, PartialEq, Eq)]
pub enum Expr {
    /// The bare zero-argument marker invocation.  On its own it is ordinary
    /// code; as the scrutinee of a `match` it makes that `match` a decision
    /// point.
    Marker,
    /// A `match` node: scrutinee and branches.
    Match { scrutinee: Box<Expr>, arms: Arms },
    /// An integer literal.
    Lit(u64),
    /// A block; its statements are traversed in order.
    Block(Exprs),
    /// A binary operation; the left child is traversed before the right.
    Binary(BinOp, Box<Expr>, Box<Expr>),
    /// A `return` of a value.
    Ret(Box<Expr>),
    /// Any other node kind, kept opaque except for its children.
    Other(Exprs),
}

impl Expr {
    /// A decision point: a `match` whose scrutinee is exactly the bare marker
    /// invocation.  Any other `match` is ordinary code.
    pub open spec fn is_fork(self) -> bool {
        self matches Expr::Match { scrutinee, .. } && *scrutinee is Marker
    }

    /// No decision point occurs anywhere in this tree.
    pub open spec fn fork_free(self) -> bool
        decreases self,
    {
        match self {
            Expr::Marker => true,
            Expr::Match { scrutinee, arms } => {
                &&& !(*scrutinee is Marker)
                &&& scrutinee.fork_free()
                &&& arms.fork_free()
            },
            Expr::Lit(_) => true,
            Expr::Block(stmts) => stmts.fork_free(),
            Expr::Binary(_, left, right) => left.fork_free() && right.fork_free(),
            Expr::Ret(value) => value.fork_free(),
            Expr::Other(children) => children.fork_free(),
        }
    }

    /// Every decision point in this tree is well formed: it has at least one
    /// branch and every branch pattern is a bare identifier.
    pub open spec fn valid_forks(self) -> bool
        decreases self,
    {
        match self {
            Expr::Marker => true,
            Expr::Match { scrutinee, arms } => {
                if *scrutinee is Marker {
                    !(arms is Nil) && arms.valid_fork_arms()
                } else {
                    scrutinee.valid_forks() && arms.valid_inner()
                }
            },
            Expr::Lit(_) => true,
            Expr::Block(stmts) => stmts.valid_forks(),
            Expr::Binary(_, left, right) => left.valid_forks() && right.valid_forks(),
            Expr::Ret(value) => value.valid_forks(),
            Expr::Other(children) => children.valid_forks(),
        }
    }

    /// Within every decision point of this tree, no two branches carry the
    /// same label.
    pub open spec fn distinct_fork_labels(self) -> bool
        decreases self,
    {
        match self {
            Expr::Marker => true,
            Expr::Match { scrutinee, arms } => {
                &&& (*scrutinee is Marker ==> distinct_seqs(arms.labels()))
                &&& scrutinee.distinct_fork_labels()
                &&& arms.distinct_fork_labels()
            },
            Expr::Lit(_) => true,
            Expr::Block(stmts) => stmts.distinct_fork_labels(),
            Expr::Binary(_, left, right) => left.distinct_fork_labels()
                && right.distinct_fork_labels(),
            Expr::Ret(value) => value.distinct_fork_labels(),
            Expr::Other(children) => children.distinct_fork_labels(),
        }
    }
}

impl Exprs {
    /// No decision point occurs in any expression of the list.
    pub open spec fn fork_free(self) -> bool
        decreases self,
    {
        match self {
            Exprs::Nil => true,
            Exprs::Cons(first, rest) => first.fork_free() && rest.fork_free(),
        }
    }

    /// Every decision point in the list is well formed.
    pub open spec fn valid_forks(self) -> bool
        decreases self,
    {
        match self {
            Exprs::Nil => true,
            Exprs::Cons(first, rest) => first.valid_forks() && rest.valid_forks(),
        }
    }

    /// Every decision point in the list has pairwise distinct labels.
    pub open spec fn distinct_fork_labels(self) -> bool
        decreases self,
    {
        match self {
            Exprs::Nil => true,
            Exprs::Cons(first, rest) => first.distinct_fork_labels()
                && rest.distinct_fork_labels(),
        }
    }
}

impl Arms {
    /// The number of branches in the list.
    pub open spec fn len(self) -> nat
        decreases self,
    {
        match self {
            Arms::Nil => 0,
            Arms::Cons(_, rest) => 1 + rest.len(),
        }
    }

    /// The labels of the identifier-patterned branches, in branch order.
    pub open spec fn labels(self) -> Seq<Seq<char>>
        decreases self,
    {
        match self {
            Arms::Nil => Seq::empty(),
            Arms::Cons(arm, rest) => match arm.pat {
                Pat::Label(name) => seq![name@] + rest.labels(),
                Pat::Other => rest.labels(),
            },
        }
    }

    /// No decision point occurs in any branch body.
    pub open spec fn fork_free(self) -> bool
        decreases self,
    {
        match self {
            Arms::Nil => true,
            Arms::Cons(arm, rest) => arm.body.fork_free() && rest.fork_free(),
        }
    }

    /// Seen as the branches of a decision point: every pattern is a bare
    /// identifier and every decision point nested in a body is well formed.
    pub open spec fn valid_fork_arms(self) -> bool
        decreases self,
    {
        match self {
            Arms::Nil => true,
            Arms::Cons(arm, rest) => {
                &&& arm.pat is Label
                &&& arm.body.valid_forks()
                &&& rest.valid_fork_arms()
            },
        }
    }

    /// Seen as the branches of an ordinary `match`: every decision point
    /// nested in a body is well formed (patterns are unconstrained).
    pub open spec fn valid_inner(self) -> bool
        decreases self,
    {
        match self {
            Arms::Nil => true,
            Arms::Cons(arm, rest) => arm.body.valid_forks() && rest.valid_inner(),
        }
    }

    /// Every decision point in any branch body has pairwise distinct labels.
    pub open spec fn distinct_fork_labels(self) -> bool
        decreases self,
    {
        match self {
            Arms::Nil => true,
            Arms::Cons(arm, rest) => arm.body.distinct_fork_labels()
                && rest.distinct_fork_labels(),
        }
    }
}

/// No two sequences of the list are equal.
pub open spec fn distinct_seqs(ls: Seq<Seq<char>>) -> bool {
    forall|i: int, j: int| 0 <= i < j < ls.len() ==> ls[i] != ls[j]
}

impl Expr {
    /// An independent copy of the tree, equal to the original.
    pub fn duplicate(&self) -> (r: Expr)
        ensures
            r == *self,
        decreases *self,
    {
        match self {
            Expr::Marker => Expr::Marker,
            Expr::Match { scrutinee, arms } => Expr::Match {
                scrutinee: Box::new(scrutinee.duplicate()),
                arms: arms.duplicate(),
            },
            Expr::Lit(value) => Expr::Lit(*value),
            Expr::Block(stmts) => Expr::Block(stmts.duplicate()),
            Expr::Binary(op, left, right) => Expr::Binary(
                *op,
                Box::new(left.duplicate()),
                Box::new(right.duplicate()),
            ),
            Expr::Ret(value) => Expr::Ret(Box::new(value.duplicate())),
            Expr::Other(children) => Expr::Other(children.duplicate()),
        }
    }

    /// Whether some decision point occurs in the tree.
    pub fn has_fork(&self) -> (b: bool)
        ensures
            b == !self.fork_free(),
        decreases *self,
    {
        match self {
            Expr::Marker => false,
            Expr::Match { scrutinee, arms } => {
                if scrutinee.is_marker() {
                    true
                } else {
                    scrutinee.has_fork() || arms.has_fork()
                }
            },
            Expr::Lit(_) => false,
            Expr::Block(stmts) => stmts.has_fork(),
            Expr::Binary(_, left, right) => left.has_fork() || right.has_fork(),
            Expr::Ret(value) => value.has_fork(),
            Expr::Other(children) => children.has_fork(),
        }
    }

    /// Whether this node is exactly the bare marker invocation.
    pub fn is_marker(&self) -> (b: bool)
        ensures
            b == (*self is Marker),
    {
        match self {
            Expr::Marker => true,
            _ => false,
        }
    }
}

impl Exprs {
    /// An independent copy of the list, equal to the original.
    pub fn duplicate(&self) -> (r: Exprs)
        ensures
            r == *self,
        decreases *self,
    {
        match self {
            Exprs::Nil => Exprs::Nil,
            Exprs::Cons(first, rest) => Exprs::Cons(
                Box::new(first.duplicate()),
                Box::new(rest.duplicate()),
            ),
        }
    }

    /// Whether some decision point occurs in the list.
    pub fn has_fork(&self) -> (b: bool)
        ensures
            b == !self.fork_free(),
        decreases *self,
    {
        match self {
            Exprs::Nil => false,
            Exprs::Cons(first, rest) => first.has_fork() || rest.has_fork(),
        }
    }
}

impl Arms {
    /// An independent copy of the list, equal to the original.
    pub fn duplicate(&self) -> (r: Arms)
        ensures
            r == *self,
        decreases *self,
    {
        match self {
            Arms::Nil => Arms::Nil,
            Arms::Cons(arm, rest) => Arms::Cons(
                Box::new(arm.duplicate()),
                Box::new(rest.duplicate()),
            ),
        }
    }

    /// Whether some decision point occurs in a branch body.
    pub fn has_fork(&self) -> (b: bool)
        ensures
            b == !self.fork_free(),
        decreases *self,
    {
        match self {
            Arms::Nil => false,
            Arms::Cons(arm, rest) => arm.body.has_fork() || rest.has_fork(),
        }
    }
}

impl Arm {
    /// An independent copy of the branch, equal to the original.
    pub fn duplicate(&self) -> (r: Arm)
        ensures
            r == *self,
        decreases *self,
    {
        Arm { pat: self.pat.duplicate(), body: self.body.duplicate() }
    }
}

impl Pat {
    /// An independent copy of the pattern, equal to the original.
    pub fn duplicate(&self) -> (r: Pat)
        ensures
            r == *self,
    {
        match self {
            Pat::Label(name) => Pat::Label(name.clone()),
            Pat::Other => Pat::Other,
        }
    }
}

} // verus!
