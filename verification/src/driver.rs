//! The driver.
//!
//! [`crossroads`] runs the finder once over a function's body, then runs the
//! rewriter once per discovered path: each path (its root segment dropped)
//! yields one output function whose name is the original name joined with the
//! path's labels by an underscore, and whose body is the path's rewrite of
//! the original body.  Variants are emitted in discovery order.  A function
//! without decision points yields exactly one variant equal to the original.

use vstd::prelude::*;
use vstd::string::StringExecFns;

use crate::finder::{find_in_expr, lemma_find_expr_keeps_min_len, PathFinder};
use crate::paths::{lemma_deep_view_empty, lemma_deep_view_push, Path, PathSet};
use crate::rewriter::{rewrite_expr, Rewriter};
use crate::tree::{Error, Expr};

verus! {

/// A function definition in tree form: its name and its body.
#[derive(Debug, PartialEq, Eq)]
pub struct FnItem {
    pub name: String,
    pub body: Expr,
}

/// The spec-level reading of one emitted function.
pub ghost struct Variant {
    pub name: Seq<char>,
    pub body: Expr,
}

/// The spec-level reading of a list of emitted functions.
pub open spec fn item_variants(items: Seq<FnItem>) -> Seq<Variant> {
    items.map_values(|it: FnItem| Variant { name: it.name@, body: it.body })
}

/// The path set the finder is seeded with: one path holding only the implicit
/// root segment, the function's own name.
pub open spec fn seed(f: FnItem) -> PathSet {
    seq![seq![f.name@]]
}

/// The derived name: the base followed, for each label in order, by one
/// underscore and that label.
pub open spec fn join_name(base: Seq<char>, labels: Seq<Seq<char>>) -> Seq<char>
    decreases labels.len(),
{
    if labels.len() == 0 {
        base
    } else {
        join_name(base + seq!['_'] + labels[0], labels.drop_first())
    }
}

/// One variant per path, in path order: the path's labels (root segment
/// dropped) derive the name and drive the rewrite of the original body.
pub open spec fn variants_for(body: Expr, base: Seq<char>, ps: PathSet) -> Result<
    Seq<Variant>,
    Error,
>
    decreases ps.len(),
{
    if ps.len() == 0 {
        Ok(Seq::empty())
    } else {
        let labels = ps[0].drop_first();
        match rewrite_expr(body, labels) {
            Ok(pair) => match variants_for(body, base, ps.drop_first()) {
                Ok(vs) => Ok(seq![Variant { name: join_name(base, labels), body: pair.0 }] + vs),
                Err(er) => Err(er),
            },
            Err(er) => Err(er),
        }
    }
}

/// What the whole transform computes: the finder's path set turned into one
/// variant per path, or the error that aborted the transform.
pub open spec fn crossroads_spec(f: FnItem) -> Result<Seq<Variant>, Error> {
    match find_in_expr(f.body, seed(f)) {
        Ok(ps) => variants_for(f.body, f.name@, ps),
        Err(er) => Err(er),
    }
}

/// Replace one function definition by its family of path variants.
///
/// The finder walks the body once and produces the complete set of label
/// paths; each path then yields one output function, in discovery order.  On
/// a malformed decision point, or on a path inconsistent with the tree, no
/// variants are emitted at all.
pub fn crossroads(func: &FnItem) -> (r: Result<Vec<FnItem>, Error>)
    ensures
        r matches Ok(vs) ==> crossroads_spec(*func) == Ok::<Seq<Variant>, Error>(
            item_variants(vs@),
        ),
        r matches Err(er) ==> crossroads_spec(*func) == Err::<Seq<Variant>, Error>(er),
{
    let mut seed_row: Vec<String> = Vec::new();
    seed_row.push(func.name.clone());
    let mut seed_vec: Vec<Vec<String>> = Vec::new();
    seed_vec.push(seed_row);
    proof {
        assert(seed_row.deep_view() =~= seq![func.name@]);
        assert(seed_vec.deep_view() =~= seed(*func));
    }
    let mut finder = PathFinder::new(seed_vec);
    match finder.visit_expr(&func.body) {
        Ok(_) => {},
        Err(er) => {
            return Err(er);
        },
    }
    let paths: Vec<Vec<String>> = finder.into_inner();
    let ghost ps: PathSet = paths.deep_view();
    proof {
        lemma_find_expr_keeps_min_len(func.body, seed(*func), 1);
    }
    let mut out: Vec<FnItem> = Vec::new();
    let mut i: usize = 0;
    proof {
        assert(ps.skip(0) =~= ps);
        assert(item_variants(out@) =~= Seq::<Variant>::empty());
        match variants_for(func.body, func.name@, ps) {
            Ok(vs0) => {
                assert(item_variants(out@) + vs0 =~= vs0);
            },
            Err(_) => {},
        }
    }
    while i < paths.len()
        invariant
            i <= paths.len(),
            ps == paths.deep_view(),
            find_in_expr(func.body, seed(*func)) == Ok::<PathSet, Error>(ps),
            forall|j: int| 0 <= j < ps.len() ==> (#[trigger] ps[j]).len() >= 1,
            variants_for(func.body, func.name@, ps) == (match variants_for(
                func.body,
                func.name@,
                ps.skip(i as int),
            ) {
                Ok(vs) => Ok::<Seq<Variant>, Error>(item_variants(out@) + vs),
                Err(er) => Err::<Seq<Variant>, Error>(er),
            }),
        decreases paths.len() - i,
    {
        proof {
            assert(ps[i as int].len() == paths@[i as int]@.len());
        }
        // The labels of this path, with the root segment dropped.
        let mut labels: Vec<String> = Vec::new();
        proof {
            lemma_deep_view_empty(labels);
            assert(labels.deep_view() =~= ps[i as int].drop_first().take(0));
        }
        let mut k: usize = 1;
        while k < paths[i].len()
            invariant
                i < paths.len(),
                ps == paths.deep_view(),
                1 <= k <= paths@[i as int]@.len(),
                labels.deep_view() == ps[i as int].drop_first().take(k - 1),
            decreases paths@[i as int]@.len() - k,
        {
            let ghost old_labels = labels;
            labels.push(paths[i][k].clone());
            proof {
                lemma_deep_view_push(
                    old_labels,
                    labels,
                    paths@[i as int]@[k as int],
                );
                assert(labels.deep_view() =~= ps[i as int].drop_first().take(k as int));
            }
            k = k + 1;
        }
        proof {
            assert(labels.deep_view() =~= ps[i as int].drop_first());
        }
        // The derived name: the original name, then each label in path order,
        // separated by underscores.
        let mut name: String = func.name.clone();
        let mut k2: usize = 0;
        while k2 < labels.len()
            invariant
                k2 <= labels.len(),
                join_name(func.name@, labels.deep_view()) == join_name(
                    name@,
                    labels.deep_view().skip(k2 as int),
                ),
            decreases labels.len() - k2,
        {
            let ghost before = name@;
            name.append("_");
            name.append(labels[k2].as_str());
            proof {
                reveal_strlit("_");
                assert(("_")@ =~= seq!['_']);
                assert(name@ == before + seq!['_'] + labels.deep_view()[k2 as int]);
                assert(labels.deep_view().skip(k2 as int).drop_first() =~= labels.deep_view().skip(
                    k2 as int + 1,
                ));
                assert(labels.deep_view().skip(k2 as int)[0] == labels.deep_view()[k2 as int]);
            }
            k2 = k2 + 1;
        }
        proof {
            assert(labels.deep_view().skip(labels.len() as int) =~= Seq::<Seq<char>>::empty());
            assert(join_name(func.name@, labels.deep_view()) == name@);
        }
        // Resolve the decision points of an independent copy of the body
        // along this path.
        let ghost labels_view = labels.deep_view();
        let mut rewriter = Rewriter::new(labels);
        let mut body = func.body.duplicate();
        let ghost body_before = body;
        match rewriter.visit_expr_mut(&mut body) {
            Ok(_) => {},
            Err(er) => {
                proof {
                    assert(ps.skip(i as int)[0] == ps[i as int]);
                    assert(variants_for(func.body, func.name@, ps.skip(i as int)) == Err::<
                        Seq<Variant>,
                        Error,
                    >(er));
                }
                return Err(er);
            },
        }
        let ghost old_out = out;
        out.push(FnItem { name, body });
        proof {
            assert(ps.skip(i as int)[0] == ps[i as int]);
            assert(ps.skip(i as int).drop_first() =~= ps.skip(i as int + 1));
            let v_new = Variant { name: join_name(func.name@, labels_view), body: body };
            assert(item_variants(out@) =~= item_variants(old_out@) + seq![v_new]);
            assert(rewrite_expr(func.body, labels_view) matches Ok(pair) && pair.0 == body);
            match variants_for(func.body, func.name@, ps.skip(i as int + 1)) {
                Ok(vs1) => {
                    assert((item_variants(old_out@) + seq![v_new]) + vs1 =~= item_variants(
                        old_out@,
                    ) + (seq![v_new] + vs1));
                },
                Err(_) => {},
            }
        }
        i = i + 1;
    }
    proof {
        assert(ps.skip(paths.len() as int) =~= Seq::<Path>::empty());
        assert(variants_for(func.body, func.name@, ps) == Ok::<Seq<Variant>, Error>(
            item_variants(out@) + Seq::<Variant>::empty(),
        ));
        assert(item_variants(out@) + Seq::<Variant>::empty() =~= item_variants(out@));
    }
    Ok(out)
}

} // verus!
