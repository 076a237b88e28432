//! The order in which canonical paths are kept and listed: component by
//! component, each name compared character by character (the order of
//! `Path`'s comparison for absolute paths, whose names are compared as UTF-8
//! bytes), with duplicate paths dropped.
use crate::paths::{components, components_spec};
use crate::text::{str_eq, string_views};
use vstd::prelude::*;
use vstd::string::*;

verus! {

/// `a` sorts before `b`, character by character by code point; a proper
/// prefix sorts first.
pub open spec fn str_less(a: Seq<char>, b: Seq<char>) -> bool
    decreases a.len(),
{
    if a.len() == 0 {
        b.len() > 0
    } else if b.len() == 0 {
        false
    } else if a[0] != b[0] {
        (a[0] as int) < (b[0] as int)
    } else {
        str_less(a.skip(1), b.skip(1))
    }
}

/// `a` sorts before `b`, component by component; a proper prefix sorts first.
pub open spec fn comps_less(a: Seq<Seq<char>>, b: Seq<Seq<char>>) -> bool
    decreases a.len(),
{
    if a.len() == 0 {
        b.len() > 0
    } else if b.len() == 0 {
        false
    } else if a[0] != b[0] {
        str_less(a[0], b[0])
    } else {
        comps_less(a.skip(1), b.skip(1))
    }
}

/// The path `a` sorts before the path `b`.
pub open spec fn path_less(a: Seq<char>, b: Seq<char>) -> bool {
    comps_less(components_spec(a), components_spec(b))
}

/// No two paths of `paths` have the same components unless they are the same
/// text (as canonical paths are).
pub open spec fn normal_paths(paths: Seq<Seq<char>>) -> bool {
    forall|i: int, j: int|
        0 <= i < paths.len() && 0 <= j < paths.len() && components_spec(paths[i])
            == components_spec(paths[j]) ==> paths[i] == paths[j]
}

/// `r` lists the paths of `paths` once each, in strictly increasing order:
/// every element is one of the paths, and every path has an element with the
/// same components.
pub open spec fn sorted_unique_of(r: Seq<Seq<char>>, paths: Seq<Seq<char>>) -> bool {
    &&& forall|i: int, j: int| 0 <= i < j < r.len() ==> path_less(r[i], r[j])
    &&& forall|k: int| 0 <= k < r.len() ==> paths.contains(#[trigger] r[k])
    &&& forall|i: int| 0 <= i < paths.len() ==> has_path_like(r, #[trigger] paths[i])
}

/// Some path of `r` has the same components as `p`.
pub open spec fn has_path_like(r: Seq<Seq<char>>, p: Seq<char>) -> bool {
    exists|k: int| 0 <= k < r.len() && components_spec(r[k]) == components_spec(p)
}

proof fn lemma_str_less_irreflexive(a: Seq<char>)
    ensures
        !str_less(a, a),
    decreases a.len(),
{
    if a.len() > 0 {
        lemma_str_less_irreflexive(a.skip(1));
    }
}

proof fn lemma_str_less_asymmetric(a: Seq<char>, b: Seq<char>)
    ensures
        str_less(a, b) ==> !str_less(b, a),
    decreases a.len(),
{
    if a.len() > 0 && b.len() > 0 && a[0] == b[0] {
        lemma_str_less_asymmetric(a.skip(1), b.skip(1));
    }
}

proof fn lemma_str_less_total(a: Seq<char>, b: Seq<char>)
    ensures
        a != b ==> str_less(a, b) || str_less(b, a),
    decreases a.len(),
{
    if a.len() > 0 && b.len() > 0 {
        if a[0] == b[0] {
            lemma_str_less_total(a.skip(1), b.skip(1));
            if a.skip(1) == b.skip(1) {
                assert(a =~= seq![a[0]] + a.skip(1));
                assert(b =~= seq![b[0]] + b.skip(1));
            }
        } else {
            assert((a[0] as int) != (b[0] as int));
        }
    } else if a.len() == 0 && b.len() == 0 {
        assert(a =~= b);
    }
}

proof fn lemma_str_less_transitive(a: Seq<char>, b: Seq<char>, c: Seq<char>)
    ensures
        str_less(a, b) && str_less(b, c) ==> str_less(a, c),
    decreases a.len(),
{
    if a.len() > 0 && b.len() > 0 && c.len() > 0 && a[0] == b[0] && b[0] == c[0] {
        lemma_str_less_transitive(a.skip(1), b.skip(1), c.skip(1));
    }
}

proof fn lemma_comps_less_irreflexive(a: Seq<Seq<char>>)
    ensures
        !comps_less(a, a),
    decreases a.len(),
{
    if a.len() > 0 {
        lemma_comps_less_irreflexive(a.skip(1));
    }
}

proof fn lemma_comps_less_asymmetric(a: Seq<Seq<char>>, b: Seq<Seq<char>>)
    ensures
        comps_less(a, b) ==> !comps_less(b, a),
    decreases a.len(),
{
    if a.len() > 0 && b.len() > 0 {
        if a[0] == b[0] {
            lemma_comps_less_asymmetric(a.skip(1), b.skip(1));
        } else {
            lemma_str_less_asymmetric(a[0], b[0]);
        }
    }
}

proof fn lemma_comps_less_total(a: Seq<Seq<char>>, b: Seq<Seq<char>>)
    ensures
        a != b ==> comps_less(a, b) || comps_less(b, a),
    decreases a.len(),
{
    if a.len() > 0 && b.len() > 0 {
        if a[0] == b[0] {
            lemma_comps_less_total(a.skip(1), b.skip(1));
            if a.skip(1) == b.skip(1) {
                assert(a =~= seq![a[0]] + a.skip(1));
                assert(b =~= seq![b[0]] + b.skip(1));
            }
        } else {
            lemma_str_less_total(a[0], b[0]);
        }
    } else if a.len() == 0 && b.len() == 0 {
        assert(a =~= b);
    }
}

proof fn lemma_comps_less_transitive(a: Seq<Seq<char>>, b: Seq<Seq<char>>, c: Seq<Seq<char>>)
    ensures
        comps_less(a, b) && comps_less(b, c) ==> comps_less(a, c),
    decreases a.len(),
{
    if a.len() > 0 && b.len() > 0 && c.len() > 0 {
        if a[0] == b[0] && b[0] == c[0] {
            lemma_comps_less_transitive(a.skip(1), b.skip(1), c.skip(1));
        } else {
            lemma_str_less_transitive(a[0], b[0], c[0]);
            lemma_str_less_asymmetric(a[0], b[0]);
            lemma_str_less_asymmetric(b[0], c[0]);
            lemma_str_less_irreflexive(a[0]);
            if a[0] == c[0] {
                lemma_str_less_asymmetric(a[0], b[0]);
            }
        }
    }
}

/// Strictly increasing by `path_less`.
pub open spec fn strictly_sorted(r: Seq<Seq<char>>) -> bool {
    forall|i: int, j: int| 0 <= i < j < r.len() ==> path_less(r[i], r[j])
}

proof fn lemma_sorted_same_contents_equal(x: Seq<Seq<char>>, y: Seq<Seq<char>>)
    requires
        strictly_sorted(x),
        strictly_sorted(y),
        forall|z: Seq<char>| x.contains(z) <==> y.contains(z),
    ensures
        x == y,
    decreases x.len(),
{
    if x.len() == 0 {
        if y.len() > 0 {
            assert(y.contains(y[0]));
        }
        assert(x =~= y);
    } else {
        assert(x.contains(x[0]));
        assert(y.len() > 0);
        assert(y.contains(y[0]));
        if x[0] != y[0] {
            let k = choose|k: int| 0 <= k < x.len() && x[k] == y[0];
            let k2 = choose|k: int| 0 <= k < y.len() && y[k] == x[0];
            assert(k != 0 && k2 != 0);
            assert(path_less(x[0], x[k]));
            assert(path_less(y[0], y[k2]));
            lemma_comps_less_asymmetric(components_spec(x[0]), components_spec(y[0]));
        }
        let xs = x.skip(1);
        let ys = y.skip(1);
        assert forall|z: Seq<char>| xs.contains(z) <==> ys.contains(z) by {
            if xs.contains(z) {
                let j = choose|j: int| 0 <= j < xs.len() && xs[j] == z;
                assert(x[j + 1] == z);
                assert(x.contains(z));
                let k = choose|k: int| 0 <= k < y.len() && y[k] == z;
                assert(path_less(x[0], x[j + 1]));
                lemma_comps_less_irreflexive(components_spec(z));
                assert(k != 0);
                assert(ys[k - 1] == z);
            }
            if ys.contains(z) {
                let j = choose|j: int| 0 <= j < ys.len() && ys[j] == z;
                assert(y[j + 1] == z);
                assert(y.contains(z));
                let k = choose|k: int| 0 <= k < x.len() && x[k] == z;
                assert(path_less(y[0], y[j + 1]));
                lemma_comps_less_irreflexive(components_spec(z));
                assert(k != 0);
                assert(xs[k - 1] == z);
            }
        }
        assert forall|i: int, j: int| 0 <= i < j < xs.len() implies path_less(xs[i], xs[j]) by {
            assert(path_less(x[i + 1], x[j + 1]));
        }
        assert forall|i: int, j: int| 0 <= i < j < ys.len() implies path_less(ys[i], ys[j]) by {
            assert(path_less(y[i + 1], y[j + 1]));
        }
        lemma_sorted_same_contents_equal(xs, ys);
        assert(x =~= seq![x[0]] + xs);
        assert(y =~= seq![y[0]] + ys);
    }
}

proof fn lemma_sorted_contents(r: Seq<Seq<char>>, paths: Seq<Seq<char>>)
    requires
        sorted_unique_of(r, paths),
        normal_paths(paths),
    ensures
        forall|z: Seq<char>| r.contains(z) <==> paths.contains(z),
{
    assert forall|z: Seq<char>| r.contains(z) <==> paths.contains(z) by {
        if paths.contains(z) {
            let i = choose|i: int| 0 <= i < paths.len() && paths[i] == z;
            assert(has_path_like(r, paths[i]));
            let k = choose|k: int| 0 <= k < r.len() && components_spec(r[k]) == components_spec(z);
            assert(paths.contains(r[k]));
            let i2 = choose|i2: int| 0 <= i2 < paths.len() && paths[i2] == r[k];
            assert(components_spec(paths[i]) == components_spec(paths[i2]));
            assert(r.contains(r[k]));
        }
        if r.contains(z) {
            let k = choose|k: int| 0 <= k < r.len() && r[k] == z;
            assert(paths.contains(r[k]));
        }
    }
}

/// Law: for canonical paths, the sorted list does not depend on the order of
/// the input or on duplicates: two inputs holding the same paths give the
/// same list.
pub proof fn law_sorted_paths_ignore_order_and_duplicates(
    r1: Seq<Seq<char>>,
    paths1: Seq<Seq<char>>,
    r2: Seq<Seq<char>>,
    paths2: Seq<Seq<char>>,
)
    requires
        sorted_unique_of(r1, paths1),
        sorted_unique_of(r2, paths2),
        normal_paths(paths1),
        normal_paths(paths2),
        forall|z: Seq<char>| paths1.contains(z) <==> paths2.contains(z),
    ensures
        r1 == r2,
{
    lemma_sorted_contents(r1, paths1);
    lemma_sorted_contents(r2, paths2);
    assert(forall|z: Seq<char>| r1.contains(z) <==> r2.contains(z));
    lemma_sorted_same_contents_equal(r1, r2);
}

/// Whether `a` sorts before `b` (see `str_less`).
fn str_before(a: &str, b: &str) -> (r: bool)
    ensures
        r == str_less(a@, b@),
{
    let n = a.unicode_len();
    let m = b.unicode_len();
    let mut i: usize = 0;
    proof {
        assert(a@.skip(0) =~= a@);
        assert(b@.skip(0) =~= b@);
    }
    while i < n && i < m && a.get_char(i) == b.get_char(i)
        invariant
            n == a@.len(),
            m == b@.len(),
            i <= n,
            i <= m,
            str_less(a@, b@) == str_less(a@.skip(i as int), b@.skip(i as int)),
        decreases n - i,
    {
        proof {
            let x = a@.skip(i as int);
            let y = b@.skip(i as int);
            assert(x[0] == a@[i as int]);
            assert(y[0] == b@[i as int]);
            assert(x.skip(1) =~= a@.skip(i + 1));
            assert(y.skip(1) =~= b@.skip(i + 1));
        }
        i = i + 1;
    }
    if i == n {
        i < m
    } else if i == m {
        false
    } else {
        let c = a.get_char(i);
        let d = b.get_char(i);
        proof {
            assert(a@.skip(i as int)[0] == c);
            assert(b@.skip(i as int)[0] == d);
        }
        (c as u32) < (d as u32)
    }
}

/// Whether the components `a` sort before the components `b`.
fn comps_before(a: &Vec<String>, b: &Vec<String>) -> (r: bool)
    ensures
        r == comps_less(string_views(a@), string_views(b@)),
{
    let ghost av = string_views(a@);
    let ghost bv = string_views(b@);
    let mut i: usize = 0;
    proof {
        assert(av.skip(0) =~= av);
        assert(bv.skip(0) =~= bv);
    }
    while i < a.len() && i < b.len() && str_eq(a[i].as_str(), b[i].as_str())
        invariant
            av == string_views(a@),
            bv == string_views(b@),
            i <= a@.len(),
            i <= b@.len(),
            comps_less(av, bv) == comps_less(av.skip(i as int), bv.skip(i as int)),
        decreases a.len() - i,
    {
        proof {
            let x = av.skip(i as int);
            let y = bv.skip(i as int);
            assert(x[0] == a@[i as int]@);
            assert(y[0] == b@[i as int]@);
            assert(x.skip(1) =~= av.skip(i + 1));
            assert(y.skip(1) =~= bv.skip(i + 1));
        }
        i = i + 1;
    }
    if i == a.len() {
        i < b.len()
    } else if i == b.len() {
        false
    } else {
        proof {
            assert(av.skip(i as int)[0] == a@[i as int]@);
            assert(bv.skip(i as int)[0] == b@[i as int]@);
        }
        str_before(a[i].as_str(), b[i].as_str())
    }
}

/// The paths sorted by components with duplicates dropped (the first of
/// equal paths is kept): what collecting them into a `BTreeSet<PathBuf>`
/// gives for canonical paths.
pub fn sorted_unique_paths(paths: &Vec<String>) -> (r: Vec<String>)
    ensures
        sorted_unique_of(string_views(r@), string_views(paths@)),
{
    let ghost pv = string_views(paths@);
    let mut result: Vec<String> = Vec::new();
    let mut comps: Vec<Vec<String>> = Vec::new();
    let mut t: usize = 0;
    while t < paths.len()
        invariant
            pv == string_views(paths@),
            t <= paths@.len(),
            result@.len() == comps@.len(),
            forall|k: int|
                0 <= k < comps@.len() ==> string_views(#[trigger] comps@[k]@) == components_spec(
                    result@[k]@,
                ),
            forall|i: int, j: int|
                0 <= i < j < result@.len() ==> path_less(result@[i]@, result@[j]@),
            forall|k: int| 0 <= k < result@.len() ==> pv.contains(#[trigger] result@[k]@),
            forall|i: int|
                0 <= i < t ==> exists|k: int|
                    0 <= k < result@.len() && components_spec(result@[k]@) == components_spec(
                        #[trigger] pv[i],
                    ),
        decreases paths.len() - t,
    {
        let x = &paths[t];
        let c = components(x.as_str());
        let ghost cv = string_views(c@);
        let mut p: usize = 0;
        while p < comps.len() && comps_before(&comps[p], &c)
            invariant
                p <= comps@.len(),
                cv == string_views(c@),
                forall|k: int| 0 <= k < p ==> comps_less(string_views(#[trigger] comps@[k]@), cv),
            decreases comps.len() - p,
        {
            p = p + 1;
        }
        let ghost old_result = result@;
        let ghost old_comps = comps@;
        if p < comps.len() && !comps_before(&c, &comps[p]) {
            proof {
                lemma_comps_less_total(string_views(comps@[p as int]@), cv);
                assert(components_spec(result@[p as int]@) == components_spec(pv[t as int]));
            }
        } else {
            result.insert(p, x.clone());
            comps.insert(p, c);
            proof {
                assert(result@ =~= old_result.insert(p as int, *x));
                assert(comps@[p as int] == c);
                assert forall|k: int| 0 <= k < comps@.len() implies string_views(
                    #[trigger] comps@[k]@,
                ) == components_spec(result@[k]@) by {
                    if k < p {
                        assert(comps@[k] == old_comps[k]);
                        assert(result@[k] == old_result[k]);
                    } else if k > p {
                        assert(comps@[k] == old_comps[k - 1]);
                        assert(result@[k] == old_result[k - 1]);
                    }
                }
                assert forall|i: int, j: int| 0 <= i < j < result@.len() implies path_less(
                    result@[i]@,
                    result@[j]@,
                ) by {
                    let ri = result@[i]@;
                    let rj = result@[j]@;
                    if j < p {
                        assert(result@[i] == old_result[i] && result@[j] == old_result[j]);
                    } else if i > p {
                        assert(result@[i] == old_result[i - 1] && result@[j] == old_result[j - 1]);
                    } else if i < p && j > p {
                        assert(result@[i] == old_result[i] && result@[j] == old_result[j - 1]);
                    } else if i < p && j == p {
                        assert(result@[i] == old_result[i]);
                        assert(string_views(old_comps[i]@) == components_spec(old_result[i]@));
                        assert(comps_less(string_views(old_comps[i]@), cv));
                    } else {
                        assert(i == p);
                        assert(result@[j] == old_result[j - 1]);
                        let first = string_views(old_comps[p as int]@);
                        assert(first == components_spec(old_result[p as int]@));
                        assert(comps_less(cv, first));
                        if j - 1 > p {
                            assert(path_less(old_result[p as int]@, old_result[j - 1]@));
                            lemma_comps_less_transitive(
                                cv,
                                first,
                                components_spec(old_result[j - 1]@),
                            );
                        }
                    }
                }
                assert forall|k: int| 0 <= k < result@.len() implies pv.contains(
                    #[trigger] result@[k]@,
                ) by {
                    if k < p {
                        assert(result@[k] == old_result[k]);
                    } else if k > p {
                        assert(result@[k] == old_result[k - 1]);
                    } else {
                        assert(pv[t as int] == x@);
                    }
                }
            }
        }
        proof {
            assert forall|i: int| 0 <= i < t + 1 implies exists|k: int|
                0 <= k < result@.len() && components_spec(result@[k]@) == components_spec(
                    #[trigger] pv[i],
                ) by {
                if i < t {
                    let k = choose|k: int|
                        0 <= k < old_result.len() && components_spec(old_result[k]@)
                            == components_spec(pv[i]);
                    if result@.len() == old_result.len() {
                        assert(result@[k] == old_result[k]);
                    } else if k < p {
                        assert(result@[k] == old_result[k]);
                    } else {
                        assert(result@[k + 1] == old_result[k]);
                    }
                } else if result@.len() == old_result.len() {
                    assert(components_spec(result@[p as int]@) == components_spec(pv[i]));
                } else {
                    assert(result@[p as int] == *x);
                }
            }
        }
        t = t + 1;
    }
    proof {
        assert(t == paths@.len());
        assert(pv.len() == paths@.len());
        let rv = string_views(result@);
        assert forall|i: int, j: int| 0 <= i < j < rv.len() implies path_less(rv[i], rv[j]) by {
            assert(path_less(result@[i]@, result@[j]@));
        }
        assert forall|k: int| 0 <= k < rv.len() implies pv.contains(#[trigger] rv[k]) by {
            assert(pv.contains(result@[k]@));
        }
        assert forall|i: int| 0 <= i < pv.len() implies has_path_like(rv, #[trigger] pv[i]) by {
            let k = choose|k: int|
                0 <= k < result@.len() && components_spec(result@[k]@) == components_spec(pv[i]);
            assert(rv[k] == result@[k]@);
        }
        assert(sorted_unique_of(rv, pv));
    }
    result
}

} // verus!
