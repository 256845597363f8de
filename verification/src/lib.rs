//! A source-to-source transform that turns one function definition into a
//! family of standalone definitions, one per distinct path through the
//! decision points embedded in its body.
//!
//! A decision point is a `match` whose scrutinee is exactly the bare marker
//! invocation (`fork!()` in surface syntax, [`tree::Expr::Marker`] here) and
//! whose branches are labelled by bare identifiers.  The [`finder`] walks a
//! body once and enumerates every label path through the decision points; the
//! [`rewriter`] resolves one path at a time, replacing each decision point by
//! the chosen branch's body; the [`driver`] derives one output function per
//! path, its name built from the path's labels.

pub mod driver;
pub mod finder;
pub mod laws;
pub mod paths;
pub mod rewriter;
pub mod tree;
