//! Filtering lists, and facts about filtered and mapped lists.

use vstd::prelude::*;

verus! {

/// What the items of a list say.
pub open spec fn views<T: View>(list: Seq<T>) -> Seq<T::V> {
    list.map_values(|x: T| x@)
}

/// Keeps the items of a list that pass a test, in their order. What the test
/// says depends on what an item says.
pub(crate) fn retain<T: View, F: Fn(&T) -> bool>(
    list: &mut Vec<T>,
    test: F,
    Ghost(keep): Ghost<spec_fn(T::V) -> bool>,
)
    requires
        forall|x: &T| #[trigger] call_requires(test, (x,)),
        forall|x: &T, yes: bool| #[trigger] call_ensures(test, (x,), yes) ==> yes == keep(x@),
    ensures
        views(final(list)@) == views(old(list)@).filter(keep),
{
    let ghost all = views(list@);
    let ghost mut seen: int = 0;
    let mut i: usize = 0;
    proof {
        lemma_pick_none(all, keep, |v: T::V| v);
        assert(views(list@) =~= all.take(0).filter(keep) + all.skip(0));
    }
    while i < list.len()
        invariant
            forall|x: &T| #[trigger] call_requires(test, (x,)),
            forall|x: &T, yes: bool| #[trigger] call_ensures(test, (x,), yes) ==> yes == keep(x@),
            0 <= seen <= all.len(),
            i == all.take(seen).filter(keep).len(),
            views(list@) == all.take(seen).filter(keep) + all.skip(seen),
        decreases all.len() - seen,
    {
        let ghost now = views(list@);
        let ghost kept = all.take(seen).filter(keep);
        proof {
            assert(now.len() == list@.len());
            assert(now[i as int] == list@[i as int]@);
            assert(now[i as int] == all[seen]);
            assert(all.take(seen + 1) =~= all.take(seen).push(all[seen]));
            lemma_filter_push(all.take(seen), all[seen], keep);
        }
        if test(&list[i]) {
            i += 1;
            assert(now =~= kept.push(all[seen]) + all.skip(seen + 1));
        } else {
            list.remove(i);
            proof {
                assert(views(list@) =~= now.remove(i as int));
                assert(now.remove(i as int) =~= kept + all.skip(seen + 1));
            }
        }
        proof {
            seen = seen + 1;
        }
    }
    proof {
        assert(seen == all.len()) by {
            assert(views(list@).len() == list@.len());
        }
        assert(all.take(seen) =~= all);
        assert(all.take(seen).filter(keep) + all.skip(seen) =~= all.filter(keep));
    }
}

/// Filtering a list with one more item behind it.
pub proof fn lemma_filter_push<A>(s: Seq<A>, x: A, keep: spec_fn(A) -> bool)
    ensures
        s.push(x).filter(keep) == if keep(x) {
            s.filter(keep).push(x)
        } else {
            s.filter(keep)
        },
{
    reveal(Seq::filter);
    assert(s.push(x).drop_last() =~= s);
}

/// Filtering and mapping the first `i + 1` items of a list, from what the
/// first `i` gave.
pub proof fn lemma_pick_step<A, B>(
    s: Seq<A>,
    i: int,
    keep: spec_fn(A) -> bool,
    f: spec_fn(A) -> B,
)
    requires
        0 <= i < s.len(),
    ensures
        s.take(i + 1).filter(keep).map_values(f) == if keep(s[i]) {
            s.take(i).filter(keep).map_values(f).push(f(s[i]))
        } else {
            s.take(i).filter(keep).map_values(f)
        },
{
    assert(s.take(i + 1) =~= s.take(i).push(s[i]));
    lemma_filter_push(s.take(i), s[i], keep);
    if keep(s[i]) {
        assert(s.take(i).filter(keep).push(s[i]).map_values(f) =~= s.take(i).filter(
            keep,
        ).map_values(f).push(f(s[i])));
    }
}

/// Nothing is picked from the empty start of a list.
pub proof fn lemma_pick_none<A, B>(s: Seq<A>, keep: spec_fn(A) -> bool, f: spec_fn(A) -> B)
    ensures
        s.take(0).filter(keep).map_values(f) == Seq::<B>::empty(),
        s.take(0).filter(keep) == Seq::<A>::empty(),
{
    reveal(Seq::filter);
    assert(s.take(0).filter(keep).map_values(f) =~= Seq::<B>::empty());
    assert(s.take(0).filter(keep) =~= Seq::<A>::empty());
}

/// Filtering by what holds of every item keeps the whole list.
pub proof fn lemma_filter_all<A>(s: Seq<A>, keep: spec_fn(A) -> bool)
    requires
        forall|i: int| 0 <= i < s.len() ==> keep(#[trigger] s[i]),
    ensures
        s.filter(keep) == s,
    decreases s.len(),
{
    reveal(Seq::filter);
    if s.len() > 0 {
        lemma_filter_all(s.drop_last(), keep);
        assert(s =~= s.drop_last().push(s.last()));
    }
}

/// Filtering a list into which an item was put, when no later item of the
/// list is kept.
pub proof fn lemma_filter_insert<A>(s: Seq<A>, at: int, x: A, keep: spec_fn(A) -> bool)
    requires
        0 <= at <= s.len(),
        keep(x) ==> forall|i: int| at <= i < s.len() ==> !keep(#[trigger] s[i]),
    ensures
        s.insert(at, x).filter(keep) == if keep(x) {
            s.filter(keep).push(x)
        } else {
            s.filter(keep)
        },
{
    let head = s.subrange(0, at);
    let tail = s.subrange(at, s.len() as int);
    assert(s =~= head + tail);
    Seq::filter_distributes_over_add(head, tail, keep);
    Seq::filter_distributes_over_add(head.push(x), tail, keep);
    lemma_filter_push(head, x, keep);
    if keep(x) {
        tail.lemma_all_neg_filter_empty(keep);
        assert(tail.filter(keep) =~= Seq::<A>::empty());
        assert(s.filter(keep) =~= head.filter(keep));
        assert(s.insert(at, x).filter(keep) =~= head.filter(keep).push(x));
    }
}

} // verus!
