//! The order in which the dependencies of a package are visited.

use crate::package::Resolve;
use vstd::prelude::*;

verus! {

/// How many of the first `count` packages are not in `seen`.
pub open spec fn unseen(count: nat, seen: Set<usize>) -> nat
    decreases count,
{
    if count == 0 {
        0
    } else if seen.contains((count - 1) as usize) {
        unseen((count - 1) as nat, seen)
    } else {
        unseen((count - 1) as nat, seen) + 1
    }
}

/// The packages that are met, in the order in which they are first met, when `pkg` and then all it
/// depends on are visited in depth, leaving out what was seen before.
pub open spec fn visit(resolve: Resolve, pkg: usize, seen: Set<usize>) -> Seq<usize>
    decreases unseen(resolve.deps@.len(), seen), 0nat, 0nat,
{
    if seen.contains(pkg) || pkg >= resolve.deps@.len() {
        Seq::empty()
    } else {
        proof {
            lemma_unseen_insert(resolve.deps@.len(), seen, pkg);
        }
        seq![pkg] + visit_all(resolve, resolve.deps_of(pkg), seen.insert(pkg))
    }
}

/// As `visit`, for several packages one after the other.
pub open spec fn visit_all(resolve: Resolve, pkgs: Seq<usize>, seen: Set<usize>) -> Seq<usize>
    decreases unseen(resolve.deps@.len(), seen), pkgs.len(), 1nat,
{
    if pkgs.len() == 0 {
        Seq::empty()
    } else {
        let first = visit(resolve, pkgs[0], seen);
        proof {
            lemma_unseen_subset(resolve.deps@.len(), seen, seen.union(first.to_set()));
        }
        first + visit_all(resolve, pkgs.drop_first(), seen.union(first.to_set()))
    }
}

pub proof fn lemma_unseen_subset(count: nat, fewer: Set<usize>, more: Set<usize>)
    requires
        fewer.subset_of(more),
    ensures
        unseen(count, more) <= unseen(count, fewer),
    decreases count,
{
    if count > 0 {
        lemma_unseen_subset((count - 1) as nat, fewer, more);
    }
}

pub proof fn lemma_unseen_insert(count: nat, seen: Set<usize>, pkg: usize)
    requires
        pkg < count,
        !seen.contains(pkg),
    ensures
        unseen(count, seen.insert(pkg)) < unseen(count, seen),
    decreases count,
{
    let before = (count - 1) as nat;
    if pkg < before {
        lemma_unseen_insert(before, seen, pkg);
        assert((before as usize) == before ==> (before as usize) != pkg);
        if (before as usize) == pkg {
            lemma_unseen_subset(before, seen, seen.insert(pkg));
        }
    } else {
        lemma_unseen_subset(before, seen, seen.insert(pkg));
    }
}

/// Each package in `chain` but the first is a direct dependency of the one before it.
pub open spec fn is_chain(resolve: Resolve, chain: Seq<usize>) -> bool {
    forall|i: int|
        0 <= i < chain.len() - 1 ==> resolve.deps_of(#[trigger] chain[i]).contains(chain[i + 1])
}

/// `chain` leads from a package to another.
pub open spec fn leads(resolve: Resolve, chain: Seq<usize>, from: usize, to: usize) -> bool {
    &&& chain.len() > 0
    &&& chain[0] == from
    &&& chain.last() == to
    &&& is_chain(resolve, chain)
}

/// A package is another one, or depends on it directly or through others.
pub open spec fn reaches(resolve: Resolve, from: usize, to: usize) -> bool {
    exists|chain: Seq<usize>| leads(resolve, chain, from, to)
}

/// What holds of the packages that `visit` and `visit_all` give.
spec fn visited(resolve: Resolve, seen: Set<usize>, found: Seq<usize>) -> bool {
    &&& found.no_duplicates()
    &&& forall|i: int| 0 <= i < found.len() ==> !seen.contains(#[trigger] found[i])
    &&& forall|i: int| 0 <= i < found.len() ==> #[trigger] found[i] < resolve.deps@.len()
    &&& forall|i: int, dep: usize|
        0 <= i < found.len() && #[trigger] resolve.deps_of(found[i]).contains(dep)
            ==> seen.contains(dep) || found.contains(dep)
}

proof fn lemma_reaches_step(resolve: Resolve, from: usize, dep: usize, to: usize)
    requires
        resolve.deps_of(from).contains(dep),
        reaches(resolve, dep, to),
    ensures
        reaches(resolve, from, to),
{
    let chain = choose|chain: Seq<usize>| leads(resolve, chain, dep, to);
    let longer = seq![from] + chain;
    assert forall|i: int| 0 <= i < longer.len() - 1 implies resolve.deps_of(
        #[trigger] longer[i],
    ).contains(longer[i + 1]) by {
        if i > 0 {
            assert(longer[i] == chain[i - 1]);
            assert(longer[i + 1] == chain[i]);
        }
    }
    assert(leads(resolve, longer, from, to));
}

proof fn lemma_visit(resolve: Resolve, pkg: usize, seen: Set<usize>)
    requires
        resolve.within(resolve.deps@.len()),
        pkg < resolve.deps@.len(),
    ensures
        visited(resolve, seen, visit(resolve, pkg, seen)),
        seen.contains(pkg) || visit(resolve, pkg, seen).contains(pkg),
        forall|i: int|
            0 <= i < visit(resolve, pkg, seen).len() ==> reaches(
                resolve,
                pkg,
                #[trigger] visit(resolve, pkg, seen)[i],
            ),
    decreases unseen(resolve.deps@.len(), seen), 0nat, 0nat,
{
    if !seen.contains(pkg) {
        let deps = resolve.deps_of(pkg);
        let more = seen.insert(pkg);
        lemma_unseen_insert(resolve.deps@.len(), seen, pkg);
        assert forall|j: int| 0 <= j < deps.len() implies #[trigger] deps[j] < resolve.deps@.len() by {
            assert(resolve.deps_of(pkg)[j] < resolve.deps@.len());
        }
        lemma_visit_all(resolve, deps, more);
        let rest = visit_all(resolve, deps, more);
        let found = seq![pkg] + rest;
        assert(found == visit(resolve, pkg, seen));
        assert(found[0] == pkg);
        assert forall|i: int| 0 <= i < found.len() implies reaches(
            resolve,
            pkg,
            #[trigger] found[i],
        ) by {
            if i == 0 {
                assert(leads(resolve, seq![pkg], pkg, pkg));
            } else {
                assert(found[i] == rest[i - 1]);
                let j = choose|j: int| 0 <= j < deps.len() && reaches(resolve, deps[j], rest[i - 1]);
                lemma_reaches_step(resolve, pkg, deps[j], found[i]);
            }
        }
        assert forall|i: int| 0 <= i < found.len() implies !seen.contains(#[trigger] found[i])
            && found[i] < resolve.deps@.len() by {
            if i > 0 {
                assert(found[i] == rest[i - 1]);
                assert(!more.contains(rest[i - 1]));
            }
        }
        assert forall|i: int, j: int| 0 <= i < j < found.len() implies found[i] != found[j] by {
            assert(found[j] == rest[j - 1]);
            assert(!more.contains(rest[j - 1]));
            if i > 0 {
                assert(found[i] == rest[i - 1]);
            }
        }
        assert forall|i: int, dep: usize|
            0 <= i < found.len() && #[trigger] resolve.deps_of(
                found[i],
            ).contains(dep) implies seen.contains(dep) || found.contains(dep) by {
            if i == 0 {
                let j = choose|j: int| 0 <= j < deps.len() && deps[j] == dep;
                assert(more.contains(deps[j]) || rest.contains(deps[j]));
            } else {
                assert(resolve.deps_of(rest[i - 1]).contains(dep));
            }
            if rest.contains(dep) {
                let k = choose|k: int| 0 <= k < rest.len() && rest[k] == dep;
                assert(found[k + 1] == dep);
            }
        }
    }
}

proof fn lemma_visit_all(resolve: Resolve, pkgs: Seq<usize>, seen: Set<usize>)
    requires
        resolve.within(resolve.deps@.len()),
        forall|j: int| 0 <= j < pkgs.len() ==> #[trigger] pkgs[j] < resolve.deps@.len(),
    ensures
        visited(resolve, seen, visit_all(resolve, pkgs, seen)),
        forall|j: int|
            0 <= j < pkgs.len() ==> seen.contains(#[trigger] pkgs[j]) || visit_all(
                resolve,
                pkgs,
                seen,
            ).contains(pkgs[j]),
        forall|i: int|
            0 <= i < visit_all(resolve, pkgs, seen).len() ==> exists|j: int|
                0 <= j < pkgs.len() && reaches(
                    resolve,
                    pkgs[j],
                    #[trigger] visit_all(resolve, pkgs, seen)[i],
                ),
    decreases unseen(resolve.deps@.len(), seen), pkgs.len(), 1nat,
{
    if pkgs.len() > 0 {
        let first = visit(resolve, pkgs[0], seen);
        let more = seen.union(first.to_set());
        lemma_unseen_subset(resolve.deps@.len(), seen, more);
        lemma_visit(resolve, pkgs[0], seen);
        let others = pkgs.drop_first();
        assert forall|j: int| 0 <= j < others.len() implies #[trigger] others[j] < resolve.deps@.len() by {
            assert(others[j] == pkgs[j + 1]);
        }
        lemma_visit_all(resolve, others, more);
        let rest = visit_all(resolve, others, more);
        let found = first + rest;
        assert(found == visit_all(resolve, pkgs, seen));
        assert forall|x: usize| first.contains(x) || rest.contains(x) implies #[trigger] found.contains(
            x,
        ) by {
            if first.contains(x) {
                let k = choose|k: int| 0 <= k < first.len() && first[k] == x;
                assert(found[k] == x);
            } else {
                let k = choose|k: int| 0 <= k < rest.len() && rest[k] == x;
                assert(found[first.len() + k] == x);
            }
        }
        assert forall|i: int| 0 <= i < found.len() implies !seen.contains(#[trigger] found[i])
            && found[i] < resolve.deps@.len() && exists|j: int|
            0 <= j < pkgs.len() && reaches(resolve, pkgs[j], found[i]) by {
            if i < first.len() {
                assert(found[i] == first[i]);
                assert(reaches(resolve, pkgs[0], first[i]));
            } else {
                let k = i - first.len();
                assert(found[i] == rest[k]);
                let j = choose|j: int| 0 <= j < others.len() && reaches(resolve, others[j], rest[k]);
                assert(others[j] == pkgs[j + 1]);
                assert(reaches(resolve, pkgs[j + 1], found[i]));
            }
        }
        assert forall|i: int, j: int| 0 <= i < j < found.len() implies found[i] != found[j] by {
            if i < first.len() && j >= first.len() {
                assert(first.contains(found[i]));
                assert(more.contains(found[i]));
                assert(found[j] == rest[j - first.len()]);
            }
        }
        assert forall|i: int, dep: usize|
            0 <= i < found.len() && #[trigger] resolve.deps_of(
                found[i],
            ).contains(dep) implies seen.contains(dep) || found.contains(dep) by {
            if i < first.len() {
                assert(resolve.deps_of(first[i]).contains(dep));
            } else {
                assert(resolve.deps_of(rest[i - first.len()]).contains(dep));
                assert(more.contains(dep) || rest.contains(dep));
            }
        }
        assert forall|j: int| 0 <= j < pkgs.len() implies seen.contains(#[trigger] pkgs[j])
            || found.contains(pkgs[j]) by {
            if j > 0 {
                assert(others[j - 1] == pkgs[j]);
                assert(more.contains(others[j - 1]) || rest.contains(others[j - 1]));
            }
        }
    }
}

/// The visit meets packages only.
pub proof fn lemma_visit_within(resolve: Resolve, pkg: usize)
    requires
        resolve.within(resolve.deps@.len()),
        pkg < resolve.deps@.len(),
    ensures
        forall|i: int|
            0 <= i < visit(resolve, pkg, Set::empty()).len() ==> #[trigger] visit(
                resolve,
                pkg,
                Set::empty(),
            )[i] < resolve.deps@.len(),
{
    lemma_visit(resolve, pkg, Set::empty());
}

proof fn lemma_chain_stays(resolve: Resolve, found: Seq<usize>, chain: Seq<usize>, at: int)
    requires
        visited(resolve, Set::empty(), found),
        chain.len() > 0,
        found.contains(chain[0]),
        is_chain(resolve, chain),
        0 <= at < chain.len(),
    ensures
        found.contains(chain[at]),
    decreases at,
{
    if at > 0 {
        lemma_chain_stays(resolve, found, chain, at - 1);
        let i = choose|i: int| 0 <= i < found.len() && found[i] == chain[at - 1];
        assert(resolve.deps_of(chain[at - 1]).contains(chain[at]));
        assert(resolve.deps_of(found[i]).contains(chain[at]));
    }
}

/// Starting with nothing seen, the visit meets each package that `pkg` reaches, no other, and none
/// of them twice; `pkg` comes first.
pub proof fn law_visit_meets_what_is_reached(resolve: Resolve, pkg: usize)
    requires
        resolve.within(resolve.deps@.len()),
        pkg < resolve.deps@.len(),
    ensures
        visit(resolve, pkg, Set::empty()).no_duplicates(),
        visit(resolve, pkg, Set::empty()).len() > 0,
        visit(resolve, pkg, Set::empty())[0] == pkg,
        forall|other: usize| #[trigger]
            visit(resolve, pkg, Set::empty()).contains(other) <==> reaches(resolve, pkg, other),
{
    let found = visit(resolve, pkg, Set::empty());
    lemma_visit(resolve, pkg, Set::empty());
    assert forall|other: usize| #[trigger] found.contains(other) <==> reaches(resolve, pkg, other) by {
        if found.contains(other) {
            let i = choose|i: int| 0 <= i < found.len() && found[i] == other;
            assert(reaches(resolve, pkg, found[i]));
        }
        if reaches(resolve, pkg, other) {
            let chain = choose|chain: Seq<usize>| leads(resolve, chain, pkg, other);
            lemma_chain_stays(resolve, found, chain, chain.len() - 1);
        }
    }
}

/// A package that was not seen before comes before all that it depends on; its direct dependencies
/// follow in their order, each with all that it depends on and that was not met before.
pub proof fn law_order_of_the_visit(resolve: Resolve, pkg: usize, seen: Set<usize>)
    requires
        pkg < resolve.deps@.len(),
    ensures
        seen.contains(pkg) ==> visit(resolve, pkg, seen).len() == 0,
        !seen.contains(pkg) ==> visit(resolve, pkg, seen).len() > 0 && visit(resolve, pkg, seen)[0]
            == pkg && visit(resolve, pkg, seen).skip(1) == visit_all(
            resolve,
            resolve.deps_of(pkg),
            seen.insert(pkg),
        ),
{
    if !seen.contains(pkg) {
        let rest = visit_all(resolve, resolve.deps_of(pkg), seen.insert(pkg));
        assert((seq![pkg] + rest).skip(1) =~= rest);
    }
}

/// Several packages are visited one after the other, each knowing what was met before.
pub proof fn law_order_of_visits(resolve: Resolve, first: usize, rest: Seq<usize>, seen: Set<usize>)
    ensures
        visit_all(resolve, Seq::empty(), seen).len() == 0,
        visit_all(resolve, seq![first] + rest, seen) == visit(resolve, first, seen) + visit_all(
            resolve,
            rest,
            seen.union(visit(resolve, first, seen).to_set()),
        ),
{
    assert((seq![first] + rest).drop_first() =~= rest);
}

} // verus!
