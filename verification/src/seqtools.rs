//! Sequence facts the queue reasoning relies on: what it means for one
//! sequence to be a subsequence of another (relative order preserved), and
//! how removing elements relates to multiset accounting.

use vstd::prelude::*;

verus! {

/// `s` can be obtained from `t` by deleting elements, keeping order.
pub open spec fn is_subseq_of<T>(s: Seq<T>, t: Seq<T>) -> bool
    decreases s.len() + t.len(),
{
    if s.len() == 0 {
        true
    } else if t.len() == 0 {
        false
    } else {
        (s.first() == t.first() && is_subseq_of(s.drop_first(), t.drop_first())) || is_subseq_of(
            s,
            t.drop_first(),
        )
    }
}

pub proof fn lemma_subseq_refl<T>(s: Seq<T>)
    ensures
        is_subseq_of(s, s),
    decreases s.len(),
{
    if s.len() > 0 {
        lemma_subseq_refl(s.drop_first());
    }
}

pub proof fn lemma_subseq_drop_first<T>(t: Seq<T>)
    requires
        t.len() > 0,
    ensures
        is_subseq_of(t.drop_first(), t),
{
    lemma_subseq_refl(t.drop_first());
}

/// Removing one element leaves a subsequence.
pub proof fn lemma_remove_is_subseq<T>(t: Seq<T>, i: int)
    requires
        0 <= i < t.len(),
    ensures
        is_subseq_of(t.remove(i), t),
    decreases t.len(),
{
    if i == 0 {
        assert(t.remove(0) =~= t.drop_first());
        lemma_subseq_drop_first(t);
    } else {
        lemma_remove_is_subseq(t.drop_first(), i - 1);
        assert(t.remove(i).drop_first() =~= t.drop_first().remove(i - 1));
        assert(t.remove(i).first() == t.first());
    }
}

pub proof fn lemma_subseq_trans<T>(a: Seq<T>, b: Seq<T>, c: Seq<T>)
    requires
        is_subseq_of(a, b),
        is_subseq_of(b, c),
    ensures
        is_subseq_of(a, c),
    decreases b.len() + c.len(),
{
    if a.len() > 0 {
        if b.first() == c.first() && is_subseq_of(b.drop_first(), c.drop_first()) {
            if a.first() == b.first() && is_subseq_of(a.drop_first(), b.drop_first()) {
                lemma_subseq_trans(a.drop_first(), b.drop_first(), c.drop_first());
            } else {
                assert(is_subseq_of(a, b.drop_first()));
                lemma_subseq_trans(a, b.drop_first(), c.drop_first());
            }
        } else {
            assert(is_subseq_of(b, c.drop_first()));
            lemma_subseq_trans(a, b, c.drop_first());
        }
    }
}

/// Splitting a duplicate-free sequence into three parts by multiset
/// accounting yields duplicate-free, pairwise disjoint parts.
pub proof fn lemma_split_no_duplicates<T>(orig: Seq<T>, rest: Seq<T>, t1: Seq<T>, t2: Seq<T>)
    requires
        orig.no_duplicates(),
        orig.to_multiset() == rest.to_multiset().add(t1.to_multiset()).add(t2.to_multiset()),
    ensures
        t1.no_duplicates(),
        t2.no_duplicates(),
        rest.no_duplicates(),
        forall|i: int, j: int|
            0 <= i < t1.len() && 0 <= j < t2.len() ==> t1[i] != t2[j],
        forall|i: int, j: int|
            0 <= i < t1.len() && 0 <= j < rest.len() ==> t1[i] != rest[j],
        forall|i: int, j: int|
            0 <= i < t2.len() && 0 <= j < rest.len() ==> t2[i] != rest[j],
{
    broadcast use vstd::seq_lib::group_to_multiset_ensures;

    orig.lemma_multiset_has_no_duplicates();
    assert forall|x: T| t1.to_multiset().contains(x) implies t1.to_multiset().count(x) == 1 by {
        assert(orig.to_multiset().count(x) >= t1.to_multiset().count(x));
    }
    t1.lemma_multiset_has_no_duplicates_conv();
    assert forall|x: T| t2.to_multiset().contains(x) implies t2.to_multiset().count(x) == 1 by {
        assert(orig.to_multiset().count(x) >= t2.to_multiset().count(x));
    }
    t2.lemma_multiset_has_no_duplicates_conv();
    assert forall|x: T| rest.to_multiset().contains(x) implies rest.to_multiset().count(x)
        == 1 by {
        assert(orig.to_multiset().count(x) >= rest.to_multiset().count(x));
    }
    rest.lemma_multiset_has_no_duplicates_conv();
    assert forall|i: int, j: int|
        0 <= i < t1.len() && 0 <= j < t2.len() implies t1[i] != t2[j] by {
        if t1[i] == t2[j] {
            let x = t1[i];
            assert(t1.contains(x) && t2.contains(x));
            assert(orig.to_multiset().count(x) >= 2);
        }
    }
    assert forall|i: int, j: int|
        0 <= i < t1.len() && 0 <= j < rest.len() implies t1[i] != rest[j] by {
        if t1[i] == rest[j] {
            let x = t1[i];
            assert(t1.contains(x) && rest.contains(x));
            assert(orig.to_multiset().count(x) >= 2);
        }
    }
    assert forall|i: int, j: int|
        0 <= i < t2.len() && 0 <= j < rest.len() implies t2[i] != rest[j] by {
        if t2[i] == rest[j] {
            let x = t2[i];
            assert(t2.contains(x) && rest.contains(x));
            assert(orig.to_multiset().count(x) >= 2);
        }
    }
}

/// Removing a queue element and pushing it onto the first team keeps the
/// combined multiset accounting intact.
pub proof fn lemma_pick_to_first<T>(q: Seq<T>, t1: Seq<T>, t2: Seq<T>, i: int)
    requires
        0 <= i < q.len(),
    ensures
        q.remove(i).to_multiset().add(t1.push(q[i]).to_multiset()).add(t2.to_multiset()) =~= q
            .to_multiset().add(t1.to_multiset()).add(t2.to_multiset()),
{
    broadcast use vstd::seq_lib::group_to_multiset_ensures;

    assert(q.contains(q[i]));
    assert(q.remove(i).to_multiset() =~= q.to_multiset().remove(q[i]));
    assert(t1.push(q[i]).to_multiset() =~= t1.to_multiset().insert(q[i]));
}

/// Removing a queue element and pushing it onto the second team keeps the
/// combined multiset accounting intact.
pub proof fn lemma_pick_to_second<T>(q: Seq<T>, t1: Seq<T>, t2: Seq<T>, i: int)
    requires
        0 <= i < q.len(),
    ensures
        q.remove(i).to_multiset().add(t1.to_multiset()).add(t2.push(q[i]).to_multiset()) =~= q
            .to_multiset().add(t1.to_multiset()).add(t2.to_multiset()),
{
    broadcast use vstd::seq_lib::group_to_multiset_ensures;

    assert(q.contains(q[i]));
    assert(q.remove(i).to_multiset() =~= q.to_multiset().remove(q[i]));
    assert(t2.push(q[i]).to_multiset() =~= t2.to_multiset().insert(q[i]));
}

/// Every element of a part accounted into a whole occurs in the whole.
pub proof fn lemma_split_membership<T>(orig: Seq<T>, rest: Seq<T>, t1: Seq<T>, t2: Seq<T>)
    requires
        orig.to_multiset() == rest.to_multiset().add(t1.to_multiset()).add(t2.to_multiset()),
    ensures
        forall|i: int| 0 <= i < t1.len() ==> orig.contains(#[trigger] t1[i]),
        forall|i: int| 0 <= i < t2.len() ==> orig.contains(#[trigger] t2[i]),
        forall|i: int| 0 <= i < rest.len() ==> orig.contains(#[trigger] rest[i]),
{
    broadcast use vstd::seq_lib::group_to_multiset_ensures;

    assert forall|i: int| 0 <= i < t1.len() implies orig.contains(#[trigger] t1[i]) by {
        assert(t1.contains(t1[i]));
        assert(orig.to_multiset().count(t1[i]) >= t1.to_multiset().count(t1[i]));
    }
    assert forall|i: int| 0 <= i < t2.len() implies orig.contains(#[trigger] t2[i]) by {
        assert(t2.contains(t2[i]));
        assert(orig.to_multiset().count(t2[i]) >= t2.to_multiset().count(t2[i]));
    }
    assert forall|i: int| 0 <= i < rest.len() implies orig.contains(#[trigger] rest[i]) by {
        assert(rest.contains(rest[i]));
        assert(orig.to_multiset().count(rest[i]) >= rest.to_multiset().count(rest[i]));
    }
}

} // verus!
