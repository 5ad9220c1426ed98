//! The order of paths, and sorting by it.

use crate::path::Path;
use crate::text::{lemma_views_push, views};
use vstd::prelude::*;
use vstd::seq_lib::group_to_multiset_ensures;

verus! {

/// Whether `a` comes no later than `b`: by the first byte in which they differ, and where one is
/// the start of the other the shorter one first.
pub open spec fn in_order(a: Seq<u8>, b: Seq<u8>) -> bool
    decreases a.len(),
{
    if a.len() == 0 {
        true
    } else if b.len() == 0 {
        false
    } else if a[0] != b[0] {
        a[0] < b[0]
    } else {
        in_order(a.drop_first(), b.drop_first())
    }
}

/// Each of `paths` comes no later than those behind it.
pub open spec fn sorted(paths: Seq<Seq<u8>>) -> bool {
    forall|i: int, j: int| 0 <= i <= j < paths.len() ==> in_order(#[trigger] paths[i], #[trigger] paths[j])
}

/// Of two paths one comes no later than the other.
pub proof fn law_order_total(a: Seq<u8>, b: Seq<u8>)
    ensures
        in_order(a, b) || in_order(b, a),
    decreases a.len(),
{
    if a.len() > 0 && b.len() > 0 && a[0] == b[0] {
        law_order_total(a.drop_first(), b.drop_first());
    }
}

/// The order carries over from one step to the next.
pub proof fn law_order_transitive(a: Seq<u8>, b: Seq<u8>, c: Seq<u8>)
    requires
        in_order(a, b),
        in_order(b, c),
    ensures
        in_order(a, c),
    decreases a.len(),
{
    if a.len() > 0 && b.len() > 0 && c.len() > 0 && a[0] == b[0] && b[0] == c[0] {
        law_order_transitive(a.drop_first(), b.drop_first(), c.drop_first());
    }
}

/// Two paths that come no later than each other are the same.
pub proof fn law_order_antisymmetric(a: Seq<u8>, b: Seq<u8>)
    requires
        in_order(a, b),
        in_order(b, a),
    ensures
        a == b,
    decreases a.len(),
{
    if a.len() > 0 && b.len() > 0 {
        let x = a.drop_first();
        let y = b.drop_first();
        law_order_antisymmetric(x, y);
        assert forall|i: int| 0 <= i < a.len() implies a[i] == b[i] by {
            if i > 0 {
                assert(x[i - 1] == y[i - 1]);
            }
        }
        assert(x.len() == y.len());
        assert(a =~= b);
    } else {
        assert(a =~= b);
    }
}

/// There is one way only to put given paths in order.
pub proof fn law_sorted_unique(a: Seq<Seq<u8>>, b: Seq<Seq<u8>>)
    requires
        sorted(a),
        sorted(b),
        a.to_multiset() == b.to_multiset(),
    ensures
        a == b,
    decreases a.len(),
{
    broadcast use group_to_multiset_ensures;

    assert(a.len() == a.to_multiset().len() == b.len());
    if a.len() > 0 {
        let last = a.len() - 1;
        assert(a.contains(a[last]));
        assert(b.to_multiset().count(a[last]) > 0);
        assert(b.contains(a[last]));
        let i = choose|i: int| 0 <= i < b.len() && b[i] == a[last];
        assert(in_order(b[i], b[last]));
        assert(b.contains(b[last]));
        assert(a.to_multiset().count(b[last]) > 0);
        assert(a.contains(b[last]));
        let j = choose|j: int| 0 <= j < a.len() && a[j] == b[last];
        assert(in_order(a[j], a[last]));
        law_order_antisymmetric(a[last], b[last]);
        assert(a.drop_last() =~= a.remove(last));
        assert(b.drop_last() =~= b.remove(last));
        law_sorted_unique(a.drop_last(), b.drop_last());
        assert(a =~= a.drop_last().push(a[last]));
        assert(b =~= b.drop_last().push(b[last]));
    } else {
        assert(a =~= b);
    }
}

/// Whether `a` comes no later than `b`.
pub fn comes_first(a: &Path, b: &Path) -> (yes: bool)
    ensures
        yes == in_order(a@, b@),
{
    let mut i: usize = 0;
    assert(a@.skip(0) =~= a@);
    assert(b@.skip(0) =~= b@);
    while i < a.repr.len()
        invariant
            i <= a@.len(),
            i <= b@.len(),
            in_order(a@, b@) == in_order(a@.skip(i as int), b@.skip(i as int)),
        decreases a@.len() - i,
    {
        if i >= b.repr.len() {
            return false;
        }
        if a.repr[i] != b.repr[i] {
            return a.repr[i] < b.repr[i];
        }
        assert(a@.skip(i as int).drop_first() =~= a@.skip(i + 1));
        assert(b@.skip(i as int).drop_first() =~= b@.skip(i + 1));
        i = i + 1;
    }
    true
}

/// `paths`, put in order.
pub open spec fn ordered(paths: Seq<Seq<u8>>) -> Seq<Seq<u8>> {
    paths.sort_by(|a: Seq<u8>, b: Seq<u8>| in_order(a, b))
}

/// Putting paths in order keeps them all.
pub proof fn law_ordered(paths: Seq<Seq<u8>>)
    ensures
        sorted(ordered(paths)),
        ordered(paths).to_multiset() == paths.to_multiset(),
{
    let leq = |a: Seq<u8>, b: Seq<u8>| in_order(a, b);
    assert forall|x: Seq<u8>| #[trigger] leq(x, x) by {
        law_order_total(x, x);
    }
    assert forall|x: Seq<u8>, y: Seq<u8>| #[trigger] leq(x, y) && #[trigger] leq(y, x) implies x == y by {
        law_order_antisymmetric(x, y);
    }
    assert forall|x: Seq<u8>, y: Seq<u8>, z: Seq<u8>| #[trigger]
        leq(x, y) && #[trigger] leq(y, z) implies leq(x, z) by {
        law_order_transitive(x, y, z);
    }
    assert forall|x: Seq<u8>, y: Seq<u8>| #[trigger] leq(x, y) || #[trigger] leq(y, x) by {
        law_order_total(x, y);
    }
    paths.lemma_sort_by_ensures(leq);
    let done = ordered(paths);
    assert forall|i: int, j: int| 0 <= i <= j < done.len() implies in_order(
        #[trigger] done[i],
        #[trigger] done[j],
    ) by {
        if i < j {
            assert(leq(done[i], done[j]));
        } else {
            assert(leq(done[i], done[i]));
        }
    }
}

/// Puts `paths` in order.
pub fn sort(paths: Vec<Path>) -> (done: Vec<Path>)
    ensures
        views(done@) == ordered(views(paths@)),
        sorted(views(done@)),
        views(done@).to_multiset() == views(paths@).to_multiset(),
{
    broadcast use group_to_multiset_ensures;

    let mut rest = paths;
    let mut done: Vec<Path> = Vec::new();
    let ghost all = views(paths@).to_multiset();
    assert(views(done@) =~= Seq::empty());
    assert(Seq::<Seq<u8>>::empty().to_multiset() =~= vstd::multiset::Multiset::empty());
    while rest.len() > 0
        invariant
            sorted(views(done@)),
            views(rest@).to_multiset().add(views(done@).to_multiset()) == all,
        decreases rest@.len(),
    {
        let ghost before = rest@;
        let ghost old_done = views(done@);
        let path = rest.pop().unwrap();
        assert(before =~= rest@.push(path));
        proof {
            lemma_views_push(rest@, path);
        }
        let mut at: usize = 0;
        while at < done.len() && comes_first(&done[at], &path)
            invariant
                at <= done@.len(),
                old_done == views(done@),
                forall|i: int| 0 <= i < at ==> in_order(#[trigger] old_done[i], path@),
            ensures
                at <= done@.len(),
                forall|i: int| 0 <= i < at ==> in_order(#[trigger] old_done[i], path@),
                at < done@.len() ==> !in_order(old_done[at as int], path@),
            decreases done@.len() - at,
        {
            assert(old_done[at as int] == done@[at as int]@);
            at = at + 1;
        }
        done.insert(at, path);
        let ghost new_done = views(done@);
        assert(new_done =~= old_done.insert(at as int, path@));
        assert forall|i: int, j: int| 0 <= i <= j < new_done.len() implies in_order(
            #[trigger] new_done[i],
            #[trigger] new_done[j],
        ) by {
            law_order_total(path@, path@);
            if at < old_done.len() {
                law_order_total(old_done[at as int], path@);
                if j > at {
                    assert(in_order(old_done[at as int], old_done[j - 1]));
                    law_order_transitive(path@, old_done[at as int], old_done[j - 1]);
                }
            }
        }
        assert(views(rest@).to_multiset().add(new_done.to_multiset()) =~= views(
            before,
        ).to_multiset().add(old_done.to_multiset())) by {
            vstd::seq_lib::to_multiset_insert(old_done, at as int, path@);
            vstd::seq_lib::to_multiset_build(views(rest@), path@);
            assert(views(before) == views(rest@).push(path@));
            assert(new_done.to_multiset() == old_done.to_multiset().insert(path@));
        }
    }
    assert(views(rest@) =~= Seq::empty());
    assert(views(done@).to_multiset() =~= all);
    proof {
        law_ordered(views(paths@));
        law_sorted_unique(views(done@), ordered(views(paths@)));
    }
    done
}

/// The first byte in which two paths differ decides, and where one is the start of the other the
/// shorter one comes first.
pub proof fn law_first_difference_decides(start: Seq<u8>, a: Seq<u8>, b: Seq<u8>)
    ensures
        a.len() > 0 && b.len() > 0 && a[0] < b[0] ==> in_order(start + a, start + b) && !in_order(
            start + b,
            start + a,
        ),
        in_order(start, start + b),
        b.len() > 0 ==> !in_order(start + b, start),
    decreases start.len(),
{
    if start.len() == 0 {
        assert(start + a =~= a);
        assert(start + b =~= b);
    } else {
        law_first_difference_decides(start.drop_first(), a, b);
        assert((start + a).drop_first() =~= start.drop_first() + a);
        assert((start + b).drop_first() =~= start.drop_first() + b);
    }
}

/// In a sorted list no path comes later than one behind it.
pub proof fn law_sorted_means_in_order(paths: Seq<Seq<u8>>, i: int, j: int)
    requires
        sorted(paths),
        0 <= i < j < paths.len(),
    ensures
        in_order(paths[i], paths[j]),
{
}

} // verus!
