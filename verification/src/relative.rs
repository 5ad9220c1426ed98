//! Paths relative to a directory.

use crate::components::{
    assemble, assembled, can_be_written, is_parent, law_written_of_assembled, lemma_reduced,
    lemma_reduced_add, lemma_settled, lemma_written, names_something, parent, reduced,
    relative_path, settled, written, DOT, SEPARATOR,
};
use crate::path::{absolute, components, joined, normal, Path};
use crate::process_builder::copy_bytes;
use crate::text::{lemma_views_push, opt_view, views};
use vstd::prelude::*;

verus! {

/// How many components `a` and `b` have in common at their start.
pub open spec fn common(a: Seq<Seq<u8>>, b: Seq<Seq<u8>>) -> nat
    decreases a.len(),
{
    if a.len() > 0 && b.len() > 0 && a[0] == b[0] {
        1 + common(a.drop_first(), b.drop_first())
    } else {
        0
    }
}

/// `count` steps up.
pub open spec fn ups(count: int) -> Seq<Seq<u8>> {
    Seq::new(count as nat, |i: int| parent())
}

/// The steps that lead from `base` to `path`: up to where the two part, then down.
pub open spec fn steps(path: Seq<Seq<u8>>, base: Seq<Seq<u8>>) -> Seq<Seq<u8>> {
    let shared = common(path, base) as int;
    ups(base.len() - shared) + path.skip(shared)
}

/// The path that leads from `base` to `path`. There is none where `path` is relative and `base` is
/// not, and where `base` goes up after the two have parted: the way back is then unknown.
pub open spec fn relative(path: Seq<u8>, base: Seq<u8>) -> Option<Seq<u8>> {
    let to = components(path);
    let from = components(base);
    if absolute(path) != absolute(base) {
        if absolute(path) {
            Some(path)
        } else {
            None
        }
    } else if from.skip(common(to, from) as int).contains(parent()) {
        None
    } else {
        Some(relative_path(steps(to, from)))
    }
}

proof fn lemma_common(a: Seq<Seq<u8>>, b: Seq<Seq<u8>>)
    ensures
        common(a, b) <= a.len(),
        common(a, b) <= b.len(),
        a.take(common(a, b) as int) == b.take(common(a, b) as int),
    decreases a.len(),
{
    if a.len() > 0 && b.len() > 0 && a[0] == b[0] {
        let n = common(a.drop_first(), b.drop_first()) as int;
        lemma_common(a.drop_first(), b.drop_first());
        let x = a.drop_first().take(n);
        let y = b.drop_first().take(n);
        assert forall|i: int| 0 <= i < n + 1 implies a[i] == b[i] by {
            if i > 0 {
                assert(x[i - 1] == y[i - 1]);
            }
        }
        assert(a.take(n + 1) =~= b.take(n + 1));
    }
}

/// Each step up undoes one component, as long as that does not go up itself.
proof fn lemma_ups(at: Seq<Seq<u8>>, count: int, rooted: bool)
    requires
        settled(at, rooted),
        0 <= count <= at.len(),
        !at.skip(at.len() - count).contains(parent()),
    ensures
        reduced(at + ups(count), rooted) == at.take(at.len() - count),
    decreases count,
{
    if count == 0 {
        assert(at + ups(0) =~= at);
        assert(at.take(at.len() as int) =~= at);
        lemma_settled(at, rooted);
    } else {
        let fewer = at.skip(at.len() - count + 1);
        assert(!fewer.contains(parent())) by {
            if fewer.contains(parent()) {
                let k = choose|k: int| 0 <= k < fewer.len() && fewer[k] == parent();
                assert(at.skip(at.len() - count)[k + 1] == parent());
            }
        }
        lemma_ups(at, count - 1, rooted);
        let all = at + ups(count);
        assert(all.drop_last() =~= at + ups(count - 1));
        assert(all.last() == parent());
        let before = at.take(at.len() - count + 1);
        assert(at.skip(at.len() - count)[0] == before.last());
        assert(before.last() != parent());
        assert(before.drop_last() =~= at.take(at.len() - count));
    }
}

/// Read from `base`, the relative path leads to `path`; and for an absolute `path` there always is
/// one.
pub proof fn law_relative_leads_back(path: Seq<u8>, base: Seq<u8>)
    ensures
        relative(path, base) is Some ==> joined(base, relative(path, base)->0) == normal(path),
        absolute(path) ==> relative(path, base) is Some,
{
    let to = components(path);
    let from = components(base);
    let rooted = absolute(base);
    let shared = common(to, from) as int;
    lemma_common(to, from);
    lemma_written(path);
    lemma_written(base);
    lemma_reduced(written(path), absolute(path));
    lemma_reduced(written(base), rooted);
    let left = from.skip(shared);
    if absolute(path) == rooted {
        if rooted && left.contains(parent()) {
            let k = choose|k: int| 0 <= k < left.len() && left[k] == parent();
            assert(from[k + shared] == parent());
            assert(from.contains(parent()));
        }
        if !left.contains(parent()) {
            let way = steps(to, from);
            let up = ups(from.len() - shared);
            let down = to.skip(shared);
            assert(can_be_written(way)) by {
                assert(parent()[0] == DOT && parent().len() == 2);
                assert forall|i: int| 0 <= i < way.len() implies names_something(#[trigger] way[i])
                    && !way[i].contains(SEPARATOR) by {
                    if i < up.len() {
                        assert(way[i] == parent());
                    } else {
                        assert(way[i] == to[i - up.len() + shared]);
                    }
                }
            }
            law_written_of_assembled(way, false);
            assert(assembled(way, false) == relative_path(way));
            lemma_reduced_add(written(base), way, rooted);
            lemma_ups(from, from.len() - shared, rooted);
            assert(can_be_written(from + up)) by {
                assert forall|i: int| 0 <= i < (from + up).len() implies names_something(
                    #[trigger] (from + up)[i],
                ) && !(from + up)[i].contains(SEPARATOR) by {
                    if i >= from.len() {
                        assert((from + up)[i] == parent());
                    } else {
                        assert((from + up)[i] == from[i]);
                    }
                }
            }
            lemma_reduced_add(from + up, down, rooted);
            assert((from + up) + down =~= from + way);
            assert(from.take(shared) + down =~= to);
            lemma_settled(to, rooted);
        }
    }
}

impl Path {
    /// The path that leads from `base` to this one.
    pub fn path_relative_from(&self, base: &Path) -> (path: Option<Path>)
        ensures
            opt_view(path) == relative(self@, base@),
    {
        broadcast use lemma_views_push;

        if self.is_absolute() != base.is_absolute() {
            if self.is_absolute() {
                return Some(self.clone());
            } else {
                return None;
            }
        }
        let to = self.to_components();
        let from = base.to_components();
        let ghost a = components(self@);
        let ghost b = components(base@);
        let mut shared: usize = 0;
        assert(a.skip(0) =~= a);
        assert(b.skip(0) =~= b);
        while shared < to.len() && shared < from.len() && to[shared] == from[shared]
            invariant
                a == views(to@),
                b == views(from@),
                shared <= a.len(),
                shared <= b.len(),
                common(a, b) == shared + common(a.skip(shared as int), b.skip(shared as int)),
            ensures
                shared <= a.len(),
                shared <= b.len(),
                common(a, b) == shared,
            decreases to.len() - shared,
        {
            let ghost k = shared as int;
            assert(a[k] == to@[k]@);
            assert(b[k] == from@[k]@);
            assert(a[k] =~= b[k]);
            assert(a.skip(k).drop_first() =~= a.skip(k + 1));
            assert(b.skip(k).drop_first() =~= b.skip(k + 1));
            shared = shared + 1;
        }
        let ghost left = b.skip(shared as int);
        let mut way: Vec<Vec<u8>> = Vec::new();
        assert(views(way@) =~= ups(0));
        for up in shared..from.len()
            invariant
                b == views(from@),
                a == components(self@),
                b == components(base@),
                absolute(self@) == absolute(base@),
                common(a, b) == shared,
                left == b.skip(shared as int),
                shared <= b.len(),
                forall|i: int| 0 <= i < up - shared ==> left[i] != parent(),
                views(way@) == ups(up - shared),
        {
            let part = &from[up];
            assert(part@ == left[up - shared]);
            if is_parent(part) {
                assert(left.contains(parent()));
                return None;
            }
            let dots = vec![DOT, DOT];
            assert(dots@ =~= parent());
            proof {
                lemma_views_push(way@, dots);
                assert(ups(up + 1 - shared) =~= ups(up - shared).push(parent()));
            }
            way.push(dots);
        }
        assert(!left.contains(parent()));
        let ghost up = ups(b.len() - shared);
        assert(up + a.subrange(shared as int, shared as int) =~= up);
        for down in shared..to.len()
            invariant
                a == views(to@),
                shared <= a.len(),
                views(way@) == up + a.subrange(shared as int, down as int),
        {
            let part = copy_bytes(&to[down]);
            proof {
                lemma_views_push(way@, part);
                assert(a[down as int] == to@[down as int]@);
                assert(up + a.subrange(shared as int, down + 1) =~= (up + a.subrange(
                    shared as int,
                    down as int,
                )).push(a[down as int]));
            }
            way.push(part);
        }
        assert(a.subrange(shared as int, a.len() as int) =~= a.skip(shared as int));
        Some(Path { repr: assemble(&way, false) })
    }
}

proof fn lemma_common_prefix(shared: Seq<Seq<u8>>, a: Seq<Seq<u8>>, b: Seq<Seq<u8>>)
    requires
        a.len() > 0 && b.len() > 0 ==> a[0] != b[0],
    ensures
        common(shared + a, shared + b) == shared.len(),
    decreases shared.len(),
{
    if shared.len() == 0 {
        assert(shared + a =~= a);
        assert(shared + b =~= b);
    } else {
        lemma_common_prefix(shared.drop_first(), a, b);
        assert((shared + a).drop_first() =~= shared.drop_first() + a);
        assert((shared + b).drop_first() =~= shared.drop_first() + b);
    }
}

/// The relative path goes up once for each component of `base` that `path` does not share, and then
/// down along those that `base` does not share; it is a relative path.
pub proof fn law_relative_goes_up_then_down(
    path: Seq<u8>,
    base: Seq<u8>,
    shared: Seq<Seq<u8>>,
    down: Seq<Seq<u8>>,
    left: Seq<Seq<u8>>,
)
    requires
        absolute(path) == absolute(base),
        components(path) == shared + down,
        components(base) == shared + left,
        down.len() > 0 && left.len() > 0 ==> down[0] != left[0],
        !left.contains(seq![DOT, DOT]),
    ensures
        relative(path, base) is Some,
        ({
            let way = written(relative(path, base)->0);
            &&& !absolute(relative(path, base)->0)
            &&& way.len() == left.len() + down.len()
            &&& forall|i: int| 0 <= i < left.len() ==> #[trigger] way[i] == seq![DOT, DOT]
            &&& forall|i: int|
                left.len() <= i < way.len() ==> #[trigger] way[i] == down[i - left.len()]
        }),
{
    let to = components(path);
    let from = components(base);
    lemma_common_prefix(shared, down, left);
    lemma_written(path);
    lemma_written(base);
    lemma_reduced(written(path), absolute(path));
    lemma_reduced(written(base), absolute(base));
    let n = shared.len() as int;
    assert(from.skip(n) =~= left);
    assert(to.skip(n) =~= down);
    let way = steps(to, from);
    assert(can_be_written(way)) by {
        assert(parent()[0] == DOT && parent().len() == 2);
        assert forall|i: int| 0 <= i < way.len() implies names_something(#[trigger] way[i])
            && !way[i].contains(SEPARATOR) by {
            if i < left.len() {
                assert(way[i] == parent());
            } else {
                assert(way[i] == to[i - left.len() + n]);
            }
        }
    }
    law_written_of_assembled(way, false);
}

/// There is no relative path only where `path` is relative and `base` is not, or where `base` goes up
/// after the two have parted. From a relative `base` an absolute path is itself.
pub proof fn law_relative_mixed(path: Seq<u8>, base: Seq<u8>)
    ensures
        absolute(path) && !absolute(base) ==> relative(path, base) == Some(path),
        !absolute(path) && absolute(base) ==> relative(path, base) is None,
        relative(path, base) is None ==> !absolute(path),
{
    law_relative_leads_back(path, base);
}

} // verus!
