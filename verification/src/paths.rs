//! Label paths and path sets.
//!
//! A path is the sequence of branch labels chosen at the decision points met
//! along one walk of a function body, headed by an implicit root segment (the
//! function's own name).  At spec level a label is a `Seq<char>`, a path a
//! `Seq` of labels and a path set a `Seq` of paths; the executable code holds
//! the same data as `Vec<String>` rows inside a `Vec`, related to the spec
//! level through `deep_view`.

use vstd::prelude::*;

verus! {

/// One label path: a sequence of labels, each a sequence of characters.
pub type Path = Seq<Seq<char>>;

/// An ordered collection of label paths.
pub type PathSet = Seq<Path>;

/// Every path of the set, extended at its end with one more label.
pub open spec fn extend_all(cur: PathSet, label: Seq<char>) -> PathSet {
    cur.map_values(|p: Path| p.push(label))
}

/// The spec-level reading of an executable path-set result.
pub open spec fn paths_result_view(r: Result<Vec<Vec<String>>, crate::tree::Error>) -> Result<
    PathSet,
    crate::tree::Error,
> {
    match r {
        Ok(ps) => Ok(ps.deep_view()),
        Err(er) => Err(er),
    }
}

/// Pushing an element onto a vector pushes its deep view onto the deep view.
pub proof fn lemma_deep_view_push<T: DeepView>(v: Vec<T>, w: Vec<T>, x: T)
    requires
        w@ == v@.push(x),
    ensures
        w.deep_view() == v.deep_view().push(x.deep_view()),
{
    assert forall|i: int| 0 <= i < w@.len() implies w.deep_view()[i] == v.deep_view().push(
        x.deep_view(),
    )[i] by {
        if i < v@.len() {
            assert(w@[i] == v@[i]);
        } else {
            assert(w@[i] == x);
        }
    }
    assert(w.deep_view() =~= v.deep_view().push(x.deep_view()));
}

/// Concatenating two vectors concatenates their deep views.
pub proof fn lemma_deep_view_concat<T: DeepView>(a: Vec<T>, b: Vec<T>, c: Vec<T>)
    requires
        c@ == a@ + b@,
    ensures
        c.deep_view() == a.deep_view() + b.deep_view(),
{
    assert forall|i: int| 0 <= i < c@.len() implies c.deep_view()[i] == (a.deep_view()
        + b.deep_view())[i] by {
        if i < a@.len() {
            assert(c@[i] == a@[i]);
        } else {
            assert(c@[i] == b@[i - a@.len()]);
        }
    }
    assert(c.deep_view() =~= a.deep_view() + b.deep_view());
}

/// An empty vector has an empty deep view.
pub proof fn lemma_deep_view_empty<T: DeepView>(v: Vec<T>)
    requires
        v@.len() == 0,
    ensures
        v.deep_view() == Seq::<T::V>::empty(),
{
    assert(v.deep_view() =~= Seq::<T::V>::empty());
}

/// Every row of `cur`, copied and extended with `label`.
pub fn extend_paths(cur: &Vec<Vec<String>>, label: &String) -> (r: Vec<Vec<String>>)
    ensures
        r.deep_view() == extend_all(cur.deep_view(), label@),
{
    let mut out: Vec<Vec<String>> = Vec::new();
    proof {
        lemma_deep_view_empty(out);
        assert(out.deep_view() =~= extend_all(cur.deep_view(), label@).take(0));
    }
    let mut i: usize = 0;
    while i < cur.len()
        invariant
            i <= cur.len(),
            out.deep_view() == extend_all(cur.deep_view(), label@).take(i as int),
        decreases cur.len() - i,
    {
        let mut row: Vec<String> = Vec::new();
        proof {
            lemma_deep_view_empty(row);
            assert(row.deep_view() =~= cur.deep_view()[i as int].take(0));
        }
        let mut j: usize = 0;
        while j < cur[i].len()
            invariant
                i < cur.len(),
                j <= cur@[i as int].len(),
                row.deep_view() == cur.deep_view()[i as int].take(j as int),
            decreases cur@[i as int].len() - j,
        {
            let ghost old_row = row;
            row.push(cur[i][j].clone());
            proof {
                lemma_deep_view_push(old_row, row, cur@[i as int]@[j as int]);
                assert(row.deep_view() =~= cur.deep_view()[i as int].take(j + 1));
            }
            j = j + 1;
        }
        let ghost full_row = row;
        row.push(label.clone());
        proof {
            lemma_deep_view_push(full_row, row, *label);
            assert(full_row.deep_view() =~= cur.deep_view()[i as int]);
            assert(row.deep_view() =~= cur.deep_view()[i as int].push(label@));
        }
        let ghost old_out = out;
        out.push(row);
        proof {
            lemma_deep_view_push(old_out, out, row);
            assert(out.deep_view() =~= extend_all(cur.deep_view(), label@).take(i + 1));
        }
        i = i + 1;
    }
    proof {
        assert(out.deep_view() =~= extend_all(cur.deep_view(), label@));
    }
    out
}

} // verus!
