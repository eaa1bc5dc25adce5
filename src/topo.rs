use vstd::prelude::*;

use crate::fs::{opt_view, origin_dataset_view, Fs};
use crate::text::{chars_of, descends, descends_chars, same_chars, string_of, sub_chars};

verus! {

/// The views of a list of character vectors.
pub open spec fn char_views(v: Seq<Vec<char>>) -> Seq<Seq<char>> {
    v.map_values(|p: Vec<char>| p@)
}

/// The views of a list of optional character vectors.
pub open spec fn opt_char_views(v: Seq<Option<Vec<char>>>) -> Seq<Option<Seq<char>>> {
    v.map_values(
        |o: Option<Vec<char>>|
            match o {
                Some(p) => Some(p@),
                None => None,
            },
    )
}

/// The dataset paths of a list of datasets.
pub open spec fn path_views(cs: Seq<Fs>) -> Seq<Seq<char>> {
    cs.map_values(|f: Fs| f.fs@)
}

/// The origin datasets of a list of datasets.
pub open spec fn origin_views(cs: Seq<Fs>) -> Seq<Option<Seq<char>>> {
    cs.map_values(|f: Fs| origin_dataset_view(opt_view(f.origin)))
}

/// Dataset `a` must be handled before dataset `b`: `b` lies below `a`, or
/// `b` was cloned from a snapshot of `a`.
#[verifier::opaque]
pub open spec fn precedes(
    paths: Seq<Seq<char>>,
    origins: Seq<Option<Seq<char>>>,
    a: int,
    b: int,
) -> bool {
    a != b && (descends(paths[a], paths[b]) || origins[b] == Some(paths[a]))
}

/// Dataset `a` of the list must be handled before dataset `b`.
pub open spec fn must_precede(cs: Seq<Fs>, a: int, b: int) -> bool {
    precedes(path_views(cs), origin_views(cs), a, b)
}

/// A nonempty set of positions of which each has a predecessor in the set.
pub open spec fn stuck_set(
    paths: Seq<Seq<char>>,
    origins: Seq<Option<Seq<char>>>,
    s: Set<int>,
) -> bool {
    &&& exists|i: int| s.contains(i)
    &&& forall|i: int|
        s.contains(i) ==> 0 <= i < paths.len() && exists|j: int|
            s.contains(j) && precedes(paths, origins, j, i)
}

/// The precedence relation has no cycle: no nonempty set of datasets has a
/// predecessor in the set for each of its members. ZFS cannot create
/// datasets whose ancestry and clone origins form a cycle.
pub open spec fn precedence_acyclic(paths: Seq<Seq<char>>, origins: Seq<Option<Seq<char>>>) -> bool {
    forall|s: Set<int>| !#[trigger] stuck_set(paths, origins, s)
}

proof fn lemma_stuck_lengths(
    paths: Seq<Seq<char>>,
    origins: Seq<Option<Seq<char>>>,
    s: Set<int>,
    n: nat,
)
    requires
        stuck_set(paths, origins, s),
        forall|b: int| 0 <= b < paths.len() ==> (#[trigger] origins[b]) is None,
    ensures
        forall|i: int| s.contains(i) ==> paths[i].len() >= n,
    decreases n,
{
    if n > 0 {
        lemma_stuck_lengths(paths, origins, s, (n - 1) as nat);
        assert forall|i: int| s.contains(i) implies paths[i].len() >= n by {
            let j = choose|j: int| s.contains(j) && precedes(paths, origins, j, i);
            reveal(precedes);
            assert(origins[i] is None);
        }
    }
}

/// Datasets without clone origins can always be ordered: ancestry alone
/// forms no cycle.
pub proof fn lemma_hierarchy_acyclic(paths: Seq<Seq<char>>, origins: Seq<Option<Seq<char>>>)
    requires
        forall|b: int| 0 <= b < paths.len() ==> (#[trigger] origins[b]) is None,
    ensures
        precedence_acyclic(paths, origins),
{
    assert forall|s: Set<int>| !#[trigger] stuck_set(paths, origins, s) by {
        if stuck_set(paths, origins, s) {
            let i = choose|i: int| s.contains(i);
            lemma_stuck_lengths(paths, origins, s, (paths[i].len() + 1) as nat);
        }
    }
}

/// The number of `true` entries.
pub open spec fn count_true(s: Seq<bool>) -> nat
    decreases s.len(),
{
    if s.len() == 0 {
        0
    } else {
        count_true(s.drop_last()) + if s.last() {
            1nat
        } else {
            0nat
        }
    }
}

proof fn lemma_count_update(s: Seq<bool>, i: int)
    requires
        0 <= i < s.len(),
        !s[i],
    ensures
        count_true(s.update(i, true)) == count_true(s) + 1,
    decreases s.len(),
{
    let t = s.update(i, true);
    if i == s.len() - 1 {
        assert(t.drop_last() =~= s.drop_last());
    } else {
        assert(t.drop_last() =~= s.drop_last().update(i, true));
        lemma_count_update(s.drop_last(), i);
    }
}

proof fn lemma_count_short_has_false(s: Seq<bool>)
    requires
        count_true(s) < s.len(),
    ensures
        exists|i: int| 0 <= i < s.len() && !s[i],
    decreases s.len(),
{
    if s.last() {
        lemma_count_short_has_false(s.drop_last());
        let i = choose|i: int| 0 <= i < s.drop_last().len() && !s.drop_last()[i];
        assert(!s[i]);
    } else {
        assert(!s[s.len() - 1]);
    }
}

proof fn lemma_count_all_false(n: nat)
    ensures
        count_true(Seq::new(n, |i: int| false)) == 0,
    decreases n,
{
    if n > 0 {
        assert(Seq::new(n, |i: int| false).drop_last() =~= Seq::new((n - 1) as nat, |i: int| false));
        lemma_count_all_false((n - 1) as nat);
    }
}

/// Whether dataset `a` must be handled before dataset `b`.
fn precedes_at(paths: &Vec<Vec<char>>, origins: &Vec<Option<Vec<char>>>, a: usize, b: usize) -> (r:
    bool)
    requires
        paths.len() == origins.len(),
        a < paths.len(),
        b < paths.len(),
    ensures
        r == precedes(char_views(paths@), opt_char_views(origins@), a as int, b as int),
{
    reveal(precedes);
    if a == b {
        return false;
    }
    if descends_chars(&paths[a], &paths[b]) {
        return true;
    }
    match &origins[b] {
        Some(o) => same_chars(o, &paths[a]),
        None => false,
    }
}

/// Whether every dataset that must precede dataset `i` is placed.
fn ready_at(
    paths: &Vec<Vec<char>>,
    origins: &Vec<Option<Vec<char>>>,
    placed: &Vec<bool>,
    i: usize,
) -> (r: bool)
    requires
        paths.len() == origins.len(),
        placed.len() == paths.len(),
        i < paths.len(),
    ensures
        r ==> forall|q: int|
            0 <= q < paths.len() && precedes(
                char_views(paths@),
                opt_char_views(origins@),
                q,
                i as int,
            ) ==> placed[q],
        !r ==> exists|q: int|
            0 <= q < paths.len() && !placed[q] && precedes(
                char_views(paths@),
                opt_char_views(origins@),
                q,
                i as int,
            ),
{
    let ghost pv = char_views(paths@);
    let ghost ov = opt_char_views(origins@);
    let n = paths.len();
    let mut j: usize = 0;
    while j < n
        invariant
            n == paths.len(),
            paths.len() == origins.len(),
            placed.len() == n,
            i < n,
            pv == char_views(paths@),
            ov == opt_char_views(origins@),
            0 <= j <= n,
            forall|q: int| 0 <= q < j && precedes(pv, ov, q, i as int) ==> placed[q],
        decreases n - j,
    {
        if !placed[j] && precedes_at(paths, origins, j, i) {
            return false;
        }
        j = j + 1;
    }
    true
}

/// The first waiting dataset all of whose predecessors are placed, if any.
fn first_ready(paths: &Vec<Vec<char>>, origins: &Vec<Option<Vec<char>>>, placed: &Vec<bool>) -> (r:
    Option<usize>)
    requires
        paths.len() == origins.len(),
        placed.len() == paths.len(),
    ensures
        r matches Some(c) ==> c < paths.len() && !placed[c as int] && forall|j: int|
            0 <= j < paths.len() && precedes(
                char_views(paths@),
                opt_char_views(origins@),
                j,
                c as int,
            ) ==> placed[j],
        r is None ==> forall|c: int|
            0 <= c < paths.len() && !placed[c] ==> exists|j: int|
                0 <= j < paths.len() && !placed[j] && precedes(
                    char_views(paths@),
                    opt_char_views(origins@),
                    j,
                    c,
                ),
{
    let n = paths.len();
    let mut i: usize = 0;
    while i < n
        invariant
            n == paths.len(),
            paths.len() == origins.len(),
            placed.len() == n,
            0 <= i <= n,
            forall|c: int|
                0 <= c < i && !placed[c] ==> exists|j: int|
                    0 <= j < n && !placed[j] && precedes(
                        char_views(paths@),
                        opt_char_views(origins@),
                        j,
                        c,
                    ),
        decreases n - i,
    {
        if !placed[i] && ready_at(paths, origins, placed, i) {
            return Some(i);
        }
        i = i + 1;
    }
    None
}

/// The first waiting dataset.
fn first_waiting(placed: &Vec<bool>) -> (r: usize)
    requires
        exists|i: int| 0 <= i < placed.len() && !placed[i],
    ensures
        r < placed.len(),
        !placed[r as int],
{
    let mut c: usize = 0;
    while c < placed.len() && placed[c]
        invariant
            0 <= c <= placed.len(),
            exists|i: int| 0 <= i < placed.len() && !placed[i],
            forall|q: int| 0 <= q < c ==> placed[q],
        decreases placed.len() - c,
    {
        c = c + 1;
    }
    c
}

/// When every waiting dataset waits for another waiting one, the precedence
/// relation has a cycle.
proof fn lemma_stuck_means_cycle(
    pv: Seq<Seq<char>>,
    ov: Seq<Option<Seq<char>>>,
    placed: Seq<bool>,
)
    requires
        placed.len() == pv.len(),
        exists|i: int| 0 <= i < placed.len() && !placed[i],
        forall|c: int|
            0 <= c < pv.len() && !placed[c] ==> exists|j: int|
                0 <= j < pv.len() && !placed[j] && precedes(pv, ov, j, c),
    ensures
        !precedence_acyclic(pv, ov),
{
    let n = pv.len();
    let s = Set::new(|c: int| 0 <= c < n && !placed[c]);
    let w = choose|c: int| 0 <= c < n && !placed[c];
    assert(s.contains(w));
    assert forall|c: int| s.contains(c) implies 0 <= c < pv.len() && exists|j: int|
        s.contains(j) && precedes(pv, ov, j, c) by {
        let j = choose|j: int| 0 <= j < n && !placed[j] && precedes(pv, ov, j, c);
        assert(s.contains(j));
    }
    assert(stuck_set(pv, ov, s));
}

/// An order of all the datasets in which, when the precedence relation has
/// no cycle, each dataset comes after every dataset that must precede it.
/// Among the datasets that may come next, the one listed first is taken.
fn precedence_order(paths: &Vec<Vec<char>>, origins: &Vec<Option<Vec<char>>>) -> (r: Vec<usize>)
    requires
        paths.len() == origins.len(),
    ensures
        r.len() == paths.len(),
        forall|k: int| 0 <= k < r.len() ==> r[k] < paths.len(),
        forall|a: int, b: int| 0 <= a < b < r.len() ==> r[a] != r[b],
        precedence_acyclic(char_views(paths@), opt_char_views(origins@)) ==> forall|a: int, b: int|
            0 <= a < b < r.len() ==> !precedes(
                char_views(paths@),
                opt_char_views(origins@),
                r[b] as int,
                r[a] as int,
            ),
{
    let ghost pv = char_views(paths@);
    let ghost ov = opt_char_views(origins@);
    let ghost acyclic = precedence_acyclic(pv, ov);
    let n = paths.len();
    let mut placed: Vec<bool> = Vec::new();
    while placed.len() < n
        invariant
            n == paths.len(),
            placed.len() <= n,
            forall|i: int| 0 <= i < placed.len() ==> !placed[i],
        decreases n - placed.len(),
    {
        placed.push(false);
    }
    proof {
        assert(placed@ =~= Seq::new(n as nat, |i: int| false));
        lemma_count_all_false(n as nat);
    }
    let mut order: Vec<usize> = Vec::new();
    while order.len() < n
        invariant
            n == paths.len(),
            paths.len() == origins.len(),
            pv == char_views(paths@),
            ov == opt_char_views(origins@),
            acyclic == precedence_acyclic(pv, ov),
            placed.len() == n,
            order.len() <= n,
            count_true(placed@) == order.len(),
            forall|k: int| 0 <= k < order.len() ==> order[k] < n && placed[order[k] as int],
            forall|a: int, b: int| 0 <= a < b < order.len() ==> order[a] != order[b],
            acyclic ==> forall|a: int, j: int|
                0 <= a < order.len() && 0 <= j < n && precedes(pv, ov, j, order[a] as int)
                    ==> placed[j],
            acyclic ==> forall|a: int, b: int|
                0 <= a < b < order.len() ==> !precedes(pv, ov, order[b] as int, order[a] as int),
        decreases n - order.len(),
    {
        let pick = first_ready(paths, origins, &placed);
        let chosen: usize = match pick {
            Some(c) => c,
            None => {
                // every waiting dataset waits for another one: a cycle
                proof {
                    lemma_count_short_has_false(placed@);
                    lemma_stuck_means_cycle(pv, ov, placed@);
                }
                proof {
                    lemma_count_short_has_false(placed@);
                }
                first_waiting(&placed)
            },
        };
        proof {
            lemma_count_update(placed@, chosen as int);
        }
        placed.set(chosen, true);
        order.push(chosen);
    }
    order
}

/// Whether `d` is one of `v`.
fn holds_chars(v: &Vec<Vec<char>>, d: &Vec<char>) -> (r: bool)
    ensures
        r == char_views(v@).contains(d@),
{
    let mut i: usize = 0;
    while i < v.len()
        invariant
            0 <= i <= v.len(),
            forall|j: int| 0 <= j < i ==> v@[j]@ != d@,
        decreases v.len() - i,
    {
        if same_chars(&v[i], d) {
            assert(char_views(v@)[i as int] == d@);
            return true;
        }
        i = i + 1;
    }
    assert forall|j: int| 0 <= j < char_views(v@).len() implies char_views(v@)[j] != d@ by {
        assert(char_views(v@)[j] == v@[j]@);
    }
    false
}

/// A dataset that must exist on the target for the listed datasets to land:
/// the parent, or a dataset between the parent and a listed one, that is not
/// itself listed.
pub open spec fn needed_ancestor(parent: Seq<char>, paths: Seq<Seq<char>>, d: Seq<char>) -> bool {
    &&& paths.len() > 0
    &&& !paths.contains(d)
    &&& (d == parent || (descends(parent, d) && exists|i: int|
        0 <= i < paths.len() && descends(d, #[trigger] paths[i])))
}

/// The datasets that must exist for the listed ones, each once.
#[verifier::loop_isolation(false)]
fn needed_ancestors(parent: &Vec<char>, paths: &Vec<Vec<char>>) -> (r: Vec<Vec<char>>)
    ensures
        forall|d: Seq<char>|
            #![trigger needed_ancestor(parent@, char_views(paths@), d)]
            char_views(r@).contains(d) <==> needed_ancestor(parent@, char_views(paths@), d),
        forall|a: int, b: int| 0 <= a < b < r.len() ==> r[a]@ != r[b]@,
{
    let ghost pv = char_views(paths@);
    let mut out: Vec<Vec<char>> = Vec::new();
    if paths.len() > 0 && !holds_chars(paths, parent) {
        out.push(parent.clone());
        assert(char_views(out@) =~= seq![parent@]);
        assert(char_views(out@)[0] == parent@);
    }
    assert(forall|d: Seq<char>| needed_ancestor(parent@, pv, d) && d == parent@ ==> char_views(out@).contains(d));
    let mut i: usize = 0;
    while i < paths.len()
        invariant
            0 <= i <= paths.len(),
            forall|a: int, b: int| 0 <= a < b < out.len() ==> out[a]@ != out[b]@,
            forall|d: Seq<char>|
                #![trigger needed_ancestor(parent@, pv, d)]
                char_views(out@).contains(d) ==> needed_ancestor(parent@, pv, d),
            forall|d: Seq<char>|
                #![trigger needed_ancestor(parent@, pv, d)]
                needed_ancestor(parent@, pv, d) && (d == parent@ || exists|q: int|
                    0 <= q < i && descends(d, #[trigger] pv[q])) ==> char_views(out@).contains(d),
        decreases paths.len() - i,
    {
        let p = &paths[i];
        assert(pv[i as int] == p@);
        let mut k: usize = 0;
        while k < p.len()
            invariant
                0 <= k <= p.len(),
                pv[i as int] == p@,
                forall|a: int, b: int| 0 <= a < b < out.len() ==> out[a]@ != out[b]@,
                forall|d: Seq<char>|
                    #![trigger needed_ancestor(parent@, pv, d)]
                    char_views(out@).contains(d) ==> needed_ancestor(parent@, pv, d),
                forall|d: Seq<char>|
                    #![trigger needed_ancestor(parent@, pv, d)]
                    needed_ancestor(parent@, pv, d) && (d == parent@ || (exists|q: int|
                        0 <= q < i && descends(d, #[trigger] pv[q])) || (descends(d, p@) && d.len()
                        < k)) ==> char_views(out@).contains(d),
            decreases p.len() - k,
        {
            let ghost out0 = char_views(out@);
            if p[k] == '/' {
                let d = sub_chars(p, 0, k);
                let ghost dv = d@;
                assert(descends(dv, p@));
                if descends_chars(parent, &d) && !holds_chars(paths, &d) && !holds_chars(&out, &d) {
                    proof {
                        assert forall|a: int| 0 <= a < out.len() implies out[a]@ != dv by {
                            assert(out0[a] == out[a]@);
                        }
                    }
                    out.push(d);
                    assert(char_views(out@) =~= out0.push(dv));
                    assert(char_views(out@)[out.len() - 1] == dv);
                    assert(needed_ancestor(parent@, pv, dv));
                }
                proof {
                    assert forall|e: Seq<char>| out0.contains(e) implies char_views(out@).contains(e) by {
                        let a = choose|a: int| 0 <= a < out0.len() && out0[a] == e;
                        assert(char_views(out@)[a] == e);
                    }
                    assert forall|e: Seq<char>|
                        needed_ancestor(parent@, pv, e) && descends(e, p@) && e.len()
                            == k implies char_views(out@).contains(e) by {
                        assert(e =~= dv);
                    }
                }
            } else {
                assert forall|e: Seq<char>| descends(e, p@) implies e.len() != k by {
                    if e.len() == k {
                        assert(p@[k as int] == '/');
                    }
                }
            }
            assert forall|d: Seq<char>|
                #![trigger needed_ancestor(parent@, pv, d)]
                needed_ancestor(parent@, pv, d) && (d == parent@ || (exists|q: int|
                    0 <= q < i && descends(d, #[trigger] pv[q])) || (descends(d, p@) && d.len() < k
                    + 1)) implies char_views(out@).contains(d) by {
                if descends(d, p@) && d.len() == k {
                } else {
                    assert(out0.contains(d));
                    let a = choose|a: int| 0 <= a < out0.len() && out0[a] == d;
                    assert(char_views(out@)[a] == d);
                }
            }
            k = k + 1;
        }
        assert forall|d: Seq<char>|
            #![trigger needed_ancestor(parent@, pv, d)]
            needed_ancestor(parent@, pv, d) && (d == parent@ || exists|q: int|
                0 <= q < i + 1 && descends(d, #[trigger] pv[q])) implies char_views(out@).contains(d) by {
            if d != parent@ && !(exists|q: int| 0 <= q < i && descends(d, #[trigger] pv[q])) {
                let q = choose|q: int| 0 <= q < i + 1 && descends(d, #[trigger] pv[q]);
                assert(q == i);
                assert(descends(d, p@));
                assert(d.len() < p@.len());
            }
        }
        i = i + 1;
    }
    assert forall|d: Seq<char>| needed_ancestor(parent@, pv, d) implies char_views(
        out@,
    ).contains(d) by {
        if d != parent@ {
            let q = choose|q: int| 0 <= q < pv.len() && descends(d, #[trigger] pv[q]);
        }
    }
    out
}

/// The paths of the datasets, as characters.
fn dataset_paths(cs: &Vec<Fs>) -> (r: (Vec<Vec<char>>, Vec<Option<Vec<char>>>))
    ensures
        r.0.len() == cs.len(),
        r.1.len() == cs.len(),
        char_views(r.0@) == path_views(cs@),
        opt_char_views(r.1@) == origin_views(cs@),
{
    let mut paths: Vec<Vec<char>> = Vec::new();
    let mut origins: Vec<Option<Vec<char>>> = Vec::new();
    let mut i: usize = 0;
    while i < cs.len()
        invariant
            0 <= i <= cs.len(),
            paths.len() == i,
            origins.len() == i,
            char_views(paths@) == path_views(cs@).subrange(0, i as int),
            opt_char_views(origins@) == origin_views(cs@).subrange(0, i as int),
        decreases cs.len() - i,
    {
        let ghost (p0, o0) = (paths@, origins@);
        paths.push(chars_of(cs[i].fs.as_str()));
        let o = match cs[i].origin_dataset() {
            Some(s) => Some(chars_of(s.as_str())),
            None => None,
        };
        origins.push(o);
        assert(char_views(paths@) =~= char_views(p0).push(cs@[i as int].fs@));
        assert(opt_char_views(origins@) =~= opt_char_views(o0).push(
            origin_dataset_view(opt_view(cs@[i as int].origin)),
        ));
        i = i + 1;
    }
    (paths, origins)
}

impl Fs {
    /// Orders `child_datasets`, datasets below this one, so that each comes
    /// after its ancestors and after the dataset it was cloned from, and
    /// lists the datasets that must exist on the target for them to land:
    /// unlisted ancestors up to and including this dataset.
    pub fn topological_sort(&self, child_datasets: &Vec<Fs>) -> (r: (Vec<usize>, Vec<String>))
        ensures
            r.0.len() == child_datasets.len(),
            forall|k: int| 0 <= k < r.0.len() ==> r.0[k] < child_datasets.len(),
            forall|a: int, b: int| 0 <= a < b < r.0.len() ==> r.0[a] != r.0[b],
            precedence_acyclic(path_views(child_datasets@), origin_views(child_datasets@))
                ==> forall|a: int, b: int|
                0 <= a < b < r.0.len() ==> !must_precede(
                    child_datasets@,
                    r.0[b] as int,
                    r.0[a] as int,
                ),
            forall|d: Seq<char>|
                #![trigger needed_ancestor(self.fs@, path_views(child_datasets@), d)]
                tag_views_contain(r.1@, d) <==> needed_ancestor(
                    self.fs@,
                    path_views(child_datasets@),
                    d,
                ),
            forall|a: int, b: int| 0 <= a < b < r.1.len() ==> r.1[a]@ != r.1[b]@,
    {
        let (paths, origins) = dataset_paths(child_datasets);
        let order = precedence_order(&paths, &origins);
        let parent = chars_of(self.fs.as_str());
        let needed = needed_ancestors(&parent, &paths);
        let mut must_exist: Vec<String> = Vec::new();
        let mut i: usize = 0;
        while i < needed.len()
            invariant
                0 <= i <= needed.len(),
                must_exist.len() == i,
                forall|k: int| 0 <= k < i ==> must_exist[k]@ == needed[k]@,
            decreases needed.len() - i,
        {
            must_exist.push(string_of(&needed[i]));
            i = i + 1;
        }
        proof {
            assert(must_exist@.map_values(|s: String| s@) =~= char_views(needed@));
        }
        (order, must_exist)
    }
}

/// Whether one of the strings holds `d`.
pub open spec fn tag_views_contain(v: Seq<String>, d: Seq<char>) -> bool {
    v.map_values(|s: String| s@).contains(d)
}

} // verus!
