//! Partition of the entry names of one directory level into the names found
//! only remotely, only locally, and on both sides.

use vstd::prelude::*;

verus! {

/// The character sequences of a list of names.
pub open spec fn views(names: Seq<String>) -> Seq<Seq<char>> {
    names.map_values(|name: String| name@)
}

/// The test that a name occurs in `b`.
pub open spec fn present_in(b: Seq<Seq<char>>) -> spec_fn(Seq<char>) -> bool {
    |name: Seq<char>| b.contains(name)
}

/// The test that a name does not occur in `b`.
pub open spec fn absent_from(b: Seq<Seq<char>>) -> spec_fn(Seq<char>) -> bool {
    |name: Seq<char>| !b.contains(name)
}

/// The names of `a` that do not occur in `b`, in the order of `a`.
pub open spec fn only_in(a: Seq<Seq<char>>, b: Seq<Seq<char>>) -> Seq<Seq<char>> {
    a.filter(absent_from(b))
}

/// The names of `a` that also occur in `b`, in the order of `a`.
pub open spec fn in_both(a: Seq<Seq<char>>, b: Seq<Seq<char>>) -> Seq<Seq<char>> {
    a.filter(present_in(b))
}

/// The three classes of names of one directory level.
#[derive(Debug, PartialEq, Eq)]
pub struct Classification {
    pub remote_only: Vec<String>,
    pub local_only: Vec<String>,
    pub common: Vec<String>,
}

/// Filtering the first `i + 1` elements extends the filter of the first `i`
/// by the element at `i` exactly when that element passes.
pub proof fn lemma_filter_take_step<A>(s: Seq<A>, pred: spec_fn(A) -> bool, i: int)
    requires
        0 <= i < s.len(),
    ensures
        s.take(i + 1).filter(pred) == if pred(s[i]) {
            s.take(i).filter(pred).push(s[i])
        } else {
            s.take(i).filter(pred)
        },
{
    reveal(Seq::filter);
    assert(s.take(i + 1).drop_last() =~= s.take(i));
    assert(s.take(i + 1).last() == s[i]);
}

/// Whether `name` occurs in `names`.
pub fn contains_name(names: &Vec<String>, name: &String) -> (found: bool)
    ensures
        found == views(names@).contains(name@),
{
    let mut i: usize = 0;
    while i < names.len()
        invariant
            i <= names.len(),
            forall|k: int| 0 <= k < i ==> names@[k]@ != name@,
        decreases names.len() - i,
    {
        if names[i] == *name {
            assert(views(names@)[i as int] == name@);
            return true;
        }
        i += 1;
    }
    assert forall|k: int| 0 <= k < views(names@).len() implies views(names@)[k] != name@ by {
        assert(views(names@)[k] == names@[k]@);
    }
    false
}

/// The names of `a` whose membership in `b` equals `keep_present`.
fn select(a: &Vec<String>, b: &Vec<String>, keep_present: bool) -> (out: Vec<String>)
    ensures
        views(out@) == views(a@).filter(|name: Seq<char>| views(b@).contains(name) == keep_present),
{
    let ghost pred = |name: Seq<char>| views(b@).contains(name) == keep_present;
    let mut out: Vec<String> = Vec::new();
    let mut i: usize = 0;
    assert(views(a@).take(0) =~= Seq::<Seq<char>>::empty());
    assert(views(out@) =~= Seq::<Seq<char>>::empty());
    proof {
        reveal(Seq::filter);
    }
    while i < a.len()
        invariant
            i <= a.len(),
            pred == |name: Seq<char>| views(b@).contains(name) == keep_present,
            views(out@) == views(a@).take(i as int).filter(pred),
        decreases a.len() - i,
    {
        let present = contains_name(b, &a[i]);
        proof {
            lemma_filter_take_step(views(a@), pred, i as int);
            assert(views(a@)[i as int] == a@[i as int]@);
        }
        if present == keep_present {
            let name = a[i].clone();
            let ghost before = out@;
            out.push(name);
            assert(views(out@) =~= views(before).push(a@[i as int]@));
        }
        i += 1;
    }
    assert(views(a@).take(a.len() as int) =~= views(a@));
    out
}

/// Classifies the names of a remote listing and of a local listing: the
/// names found only remotely are the remote names without the local ones,
/// the names found only locally are the local names without the remote
/// ones, and the common names are those of both listings.
///
/// Each class keeps the order of the listing it is taken from; `common`
/// follows the remote listing.
pub fn classify(remote_names: &Vec<String>, local_names: &Vec<String>) -> (c: Classification)
    ensures
        views(c.remote_only@) == only_in(views(remote_names@), views(local_names@)),
        views(c.local_only@) == only_in(views(local_names@), views(remote_names@)),
        views(c.common@) == in_both(views(remote_names@), views(local_names@)),
        views(c.remote_only@).to_set() == views(remote_names@).to_set().difference(
            views(local_names@).to_set(),
        ),
        views(c.local_only@).to_set() == views(local_names@).to_set().difference(
            views(remote_names@).to_set(),
        ),
        views(c.common@).to_set() == views(remote_names@).to_set().intersect(
            views(local_names@).to_set(),
        ),
{
    let remote_only = select(remote_names, local_names, false);
    let local_only = select(local_names, remote_names, false);
    let common = select(remote_names, local_names, true);
    proof {
        let r = views(remote_names@);
        let l = views(local_names@);
        assert((|name: Seq<char>| l.contains(name) == false) =~= absent_from(l));
        assert((|name: Seq<char>| r.contains(name) == false) =~= absent_from(r));
        assert((|name: Seq<char>| l.contains(name) == true) =~= present_in(l));
        lemma_classes_partition(r, l);
    }
    Classification { remote_only, local_only, common }
}

/// A filtered sequence holds exactly the elements of the sequence that pass.
pub proof fn lemma_filter_membership<A>(s: Seq<A>, pred: spec_fn(A) -> bool, x: A)
    ensures
        s.filter(pred).contains(x) <==> s.contains(x) && pred(x),
    decreases s.len(),
{
    reveal(Seq::filter);
    if s.len() > 0 {
        let init = s.drop_last();
        lemma_filter_membership(init, pred, x);
        let sub = init.filter(pred);
        if s.contains(x) && pred(x) {
            let i = choose|i: int| 0 <= i < s.len() && s[i] == x;
            if i < s.len() - 1 {
                assert(init[i] == x);
                let j = choose|j: int| 0 <= j < sub.len() && sub[j] == x;
                assert(s.filter(pred)[j] == x);
            } else {
                assert(s.filter(pred) == sub.push(x));
                assert(s.filter(pred)[sub.len() as int] == x);
            }
        }
        if s.filter(pred).contains(x) {
            let j = choose|j: int| 0 <= j < s.filter(pred).len() && s.filter(pred)[j] == x;
            if j < sub.len() {
                assert(sub[j] == x);
                let i = choose|i: int| 0 <= i < init.len() && init[i] == x;
                assert(s[i] == x);
            } else {
                assert(s[s.len() - 1] == x);
            }
        }
    }
}

/// Filtering keeps a sequence free of repetitions.
pub proof fn lemma_filter_no_duplicates<A>(s: Seq<A>, pred: spec_fn(A) -> bool)
    requires
        s.no_duplicates(),
    ensures
        s.filter(pred).no_duplicates(),
    decreases s.len(),
{
    reveal(Seq::filter);
    if s.len() > 0 {
        let init = s.drop_last();
        lemma_filter_no_duplicates(init, pred);
        let sub = init.filter(pred);
        if pred(s.last()) {
            lemma_filter_membership(init, pred, s.last());
            if sub.contains(s.last()) {
                let i = choose|i: int| 0 <= i < init.len() && init[i] == s.last();
                assert(s[i] == s[s.len() - 1]);
            }
            assert forall|i: int, j: int|
                0 <= i < sub.push(s.last()).len() && 0 <= j < sub.push(s.last()).len() && i
                    != j implies sub.push(s.last())[i] != sub.push(s.last())[j] by {
                if i < sub.len() && j < sub.len() {
                } else if i < sub.len() {
                    assert(sub.contains(sub[i]));
                } else {
                    assert(sub.contains(sub[j]));
                }
            }
        }
    }
}

/// The three classes cover exactly the names of the two listings, and no
/// name falls into two of them: the names found only remotely are the remote
/// names without the local ones, the names found only locally are the local
/// names without the remote ones, and the common names are those of both.
pub proof fn lemma_classes_partition(remote: Seq<Seq<char>>, local: Seq<Seq<char>>)
    ensures
        only_in(remote, local).to_set() == remote.to_set().difference(local.to_set()),
        only_in(local, remote).to_set() == local.to_set().difference(remote.to_set()),
        in_both(remote, local).to_set() == remote.to_set().intersect(local.to_set()),
        only_in(remote, local).to_set().union(only_in(local, remote).to_set()).union(
            in_both(remote, local).to_set(),
        ) == remote.to_set().union(local.to_set()),
        only_in(remote, local).to_set().disjoint(only_in(local, remote).to_set()),
        only_in(remote, local).to_set().disjoint(in_both(remote, local).to_set()),
        only_in(local, remote).to_set().disjoint(in_both(remote, local).to_set()),
{
    let ro = only_in(remote, local).to_set();
    let lo = only_in(local, remote).to_set();
    let co = in_both(remote, local).to_set();
    assert forall|name: Seq<char>| #[trigger]
        ro.contains(name) <==> remote.contains(name) && !local.contains(name) by {
        lemma_filter_membership(remote, absent_from(local), name);
    }
    assert forall|name: Seq<char>| #[trigger]
        lo.contains(name) <==> local.contains(name) && !remote.contains(name) by {
        lemma_filter_membership(local, absent_from(remote), name);
    }
    assert forall|name: Seq<char>| #[trigger]
        co.contains(name) <==> remote.contains(name) && local.contains(name) by {
        lemma_filter_membership(remote, present_in(local), name);
    }
    assert(ro =~= remote.to_set().difference(local.to_set()));
    assert(lo =~= local.to_set().difference(remote.to_set()));
    assert(co =~= remote.to_set().intersect(local.to_set()));
    assert(ro.union(lo).union(co) =~= remote.to_set().union(local.to_set()));
}

/// Listings without repeated names give classes without repeated names.
pub proof fn lemma_classes_no_duplicates(remote: Seq<Seq<char>>, local: Seq<Seq<char>>)
    requires
        remote.no_duplicates(),
        local.no_duplicates(),
    ensures
        only_in(remote, local).no_duplicates(),
        only_in(local, remote).no_duplicates(),
        in_both(remote, local).no_duplicates(),
{
    lemma_filter_no_duplicates(remote, absent_from(local));
    lemma_filter_no_duplicates(local, absent_from(remote));
    lemma_filter_no_duplicates(remote, present_in(local));
}

/// Once both listings hold the same names, nothing is left to transfer:
/// every name is common.
pub proof fn lemma_converged_classes(remote: Seq<Seq<char>>, local: Seq<Seq<char>>)
    requires
        remote.to_set() == local.to_set(),
    ensures
        only_in(remote, local) == Seq::<Seq<char>>::empty(),
        only_in(local, remote) == Seq::<Seq<char>>::empty(),
        in_both(remote, local) == remote,
{
    assert forall|i: int| 0 <= i < remote.len() implies local.contains(#[trigger] remote[i]) by {
        assert(remote.contains(remote[i]));
        assert(remote.to_set().contains(remote[i]));
    }
    assert forall|i: int| 0 <= i < local.len() implies remote.contains(#[trigger] local[i]) by {
        assert(local.contains(local[i]));
        assert(local.to_set().contains(local[i]));
    }
    lemma_all_filtered_out(remote, absent_from(local));
    lemma_all_filtered_out(local, absent_from(remote));
    lemma_all_kept(remote, present_in(local));
}

/// A filter that no element passes leaves nothing.
pub proof fn lemma_all_filtered_out<A>(s: Seq<A>, pred: spec_fn(A) -> bool)
    requires
        forall|i: int| 0 <= i < s.len() ==> !pred(#[trigger] s[i]),
    ensures
        s.filter(pred) == Seq::<A>::empty(),
    decreases s.len(),
{
    reveal(Seq::filter);
    if s.len() > 0 {
        lemma_all_filtered_out(s.drop_last(), pred);
    }
}

/// A filter that every element passes leaves the sequence as it is.
pub proof fn lemma_all_kept<A>(s: Seq<A>, pred: spec_fn(A) -> bool)
    requires
        forall|i: int| 0 <= i < s.len() ==> pred(#[trigger] s[i]),
    ensures
        s.filter(pred) == s,
    decreases s.len(),
{
    reveal(Seq::filter);
    if s.len() > 0 {
        lemma_all_kept(s.drop_last(), pred);
        assert(s.drop_last().push(s.last()) =~= s);
    }
}

} // verus!
