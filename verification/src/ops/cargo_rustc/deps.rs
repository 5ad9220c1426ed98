//! The arguments that make the results of dependencies known to the compiler.

use crate::components::SEPARATOR;
use crate::context::{Context, Kind, Layout};
use crate::error::{CargoError, ErrorView};
use crate::ops::cargo_rustc::args::{flagged, with_flag};
use crate::package::Target;
use crate::process_builder::{Command, ProcessBuilder};
use crate::reach::{
    law_visit_meets_what_is_reached, lemma_unseen_insert, lemma_unseen_subset, lemma_visit_within,
    reaches, unseen, visit, visit_all,
};
use crate::text::{push_bytes, to_bytes, utf8};
use std::collections::HashSet;
use vstd::prelude::*;

verus! {

/// `=`
pub const EQUALS: u8 = 61;

/// The directories that hold what the build commands of `pkgs` made, for those that have any.
pub open spec fn native_dirs(cx: Context, layout: Layout, pkgs: Seq<usize>) -> Seq<Seq<u8>>
    decreases pkgs.len(),
{
    if pkgs.len() == 0 {
        Seq::empty()
    } else {
        let before = native_dirs(cx, layout, pkgs.drop_last());
        let last = pkgs.last() as int;
        if cx.package(last).build@.len() > 0 {
            before.push(layout.native@[last]@)
        } else {
            before
        }
    }
}

proof fn lemma_native_dirs_add(cx: Context, layout: Layout, a: Seq<usize>, b: Seq<usize>)
    ensures
        native_dirs(cx, layout, a + b) == native_dirs(cx, layout, a) + native_dirs(cx, layout, b),
    decreases b.len(),
{
    if b.len() == 0 {
        assert(a + b =~= a);
        assert(native_dirs(cx, layout, a) + native_dirs(cx, layout, b) =~= native_dirs(cx, layout, a));
    } else {
        assert((a + b).drop_last() =~= a + b.drop_last());
        lemma_native_dirs_add(cx, layout, a, b.drop_last());
        assert(native_dirs(cx, layout, a + b) =~= native_dirs(cx, layout, a) + native_dirs(
            cx,
            layout,
            b,
        ));
    }
}

pub(crate) proof fn lemma_flagged_add(flag: Seq<u8>, a: Seq<Seq<u8>>, b: Seq<Seq<u8>>)
    ensures
        flagged(flag, a + b) == flagged(flag, a) + flagged(flag, b),
    decreases b.len(),
{
    if b.len() == 0 {
        assert(a + b =~= a);
        assert(flagged(flag, a) + flagged(flag, b) =~= flagged(flag, a));
    } else {
        assert((a + b).drop_last() =~= a + b.drop_last());
        lemma_flagged_add(flag, a, b.drop_last());
        assert(flagged(flag, a + b) =~= flagged(flag, a) + flagged(flag, b));
    }
}

/// The arguments for the directories that hold what the build commands of `pkgs` made.
pub open spec fn native_args(cx: Context, layout: Layout, pkgs: Seq<usize>) -> Seq<Seq<u8>> {
    flagged(utf8("-L"@), native_dirs(cx, layout, pkgs))
}

proof fn lemma_native_args_add(cx: Context, layout: Layout, a: Seq<usize>, b: Seq<usize>)
    ensures
        native_args(cx, layout, a + b) == native_args(cx, layout, a) + native_args(cx, layout, b),
{
    lemma_native_dirs_add(cx, layout, a, b);
    lemma_flagged_add(utf8("-L"@), native_dirs(cx, layout, a), native_dirs(cx, layout, b));
}

/// Adds the directories that hold what the build commands of a package and of all it depends on
/// made, leaving out the packages that were visited before.
pub fn push_native_dirs(
    cmd: ProcessBuilder,
    layout: &Layout,
    pkg: usize,
    cx: &Context,
    visited: &mut HashSet<usize>,
) -> (out: ProcessBuilder)
    requires
        cx.wf(),
        cx.has_package(pkg as int),
        layout.covers(cx.ws.packages@.len()),
    ensures
        out@ == cmd@.with_args(
            native_args(*cx, *layout, visit(cx.ws.resolve, pkg, old(visited)@)),
        ),
        final(visited)@ == old(visited)@.union(visit(cx.ws.resolve, pkg, old(visited)@).to_set()),
    decreases unseen(cx.ws.packages@.len(), old(visited)@),
{
    broadcast use vstd::std_specs::hash::group_hash_axioms;

    let ghost resolve = cx.ws.resolve;
    let ghost seen = visited@;
    let ghost given = cmd@;
    if !visited.insert(pkg) {
        assert(visit(resolve, pkg, seen) =~= Seq::empty());
        assert(cmd@ =~= given.with_args(native_args(*cx, *layout, Seq::empty())));
        assert(visited@ =~= seen.union(Seq::<usize>::empty().to_set()));
        return cmd;
    }
    let ghost more = seen.insert(pkg);
    proof {
        lemma_unseen_insert(resolve.deps@.len(), seen, pkg);
    }
    let mut cmd = cmd;
    if cx.ws.packages[pkg].build.len() > 0 {
        cmd = with_flag(cmd, "-L", layout.native[pkg].repr.as_slice());
    }
    let ghost own = seq![pkg];
    proof {
        assert(own.drop_last() =~= Seq::empty());
        let none = Seq::<Seq<u8>>::empty();
        let dir = layout.native@[pkg as int]@;
        assert(none.push(dir).drop_last() =~= none);
        assert(native_dirs(*cx, *layout, own.drop_last()) =~= none);
        assert(flagged(utf8("-L"@), none) =~= none);
        assert(cmd@ =~= given.with_args(native_args(*cx, *layout, own)));
    }
    let ghost mut found = Seq::<usize>::empty();
    assert(own + found =~= own);
    let ghost deps = resolve.deps_of(pkg);
    if let Some(list) = &cx.ws.resolve.deps[pkg] {
        assert(deps.skip(0) =~= deps);
        assert(found + visit_all(resolve, deps, more) =~= visit_all(resolve, deps, more));
        assert(visited@ =~= more.union(found.to_set()));
        for i in 0..list.len()
            invariant
                cx.wf(),
                resolve == cx.ws.resolve,
                cx.has_package(pkg as int),
                layout.covers(cx.ws.packages@.len()),
                list@ == deps,
                deps == resolve.deps_of(pkg),
                more == seen.insert(pkg),
                unseen(cx.ws.packages@.len(), more) < unseen(cx.ws.packages@.len(), seen),
                seen == old(visited)@,
                visited@ == more.union(found.to_set()),
                visit_all(resolve, deps, more) == found + visit_all(
                    resolve,
                    deps.skip(i as int),
                    visited@,
                ),
                cmd@ == given.with_args(native_args(*cx, *layout, own + found)),
        {
            let ghost before = visited@;
            let ghost first = visit(resolve, deps[i as int], before);
            let dep = list[i];
            assert(resolve.deps_of(pkg)[i as int] < cx.ws.packages@.len());
            proof {
                lemma_unseen_subset(cx.ws.packages@.len(), more, before);
            }
            cmd = push_native_dirs(cmd, layout, dep, cx, visited);
            proof {
                lemma_native_args_add(*cx, *layout, own + found, first);
                let rest = deps.skip(i as int);
                assert(rest.drop_first() =~= deps.skip(i + 1));
                assert(rest[0] == dep);
                assert(visited@ == before.union(first.to_set()));
                let tail = visit_all(resolve, deps.skip(i + 1), visited@);
                assert(found + (first + tail) =~= (found + first) + tail);
                lemma_to_set_add(found, first);
                assert(visited@ =~= more.union((found + first).to_set()));
                assert((own + found) + first =~= own + (found + first));
                found = found + first;
                assert(cmd@ =~= given.with_args(native_args(*cx, *layout, own + found)));
            }
        }
        assert(deps.skip(deps.len() as int) =~= Seq::empty());
        assert(found + Seq::<usize>::empty() =~= found);
    } else {
        assert(deps =~= Seq::empty());
        assert(visited@ =~= more.union(found.to_set()));
    }
    assert(visit_all(resolve, deps, more) == found);
    assert(visit(resolve, pkg, seen) == own + found);
    proof {
        lemma_to_set_add(own, found);
        assert(own[0] == pkg);
        assert(own.to_set() =~= set![pkg]);
        assert(visited@ =~= seen.union((own + found).to_set()));
    }
    cmd
}

proof fn lemma_to_set_add(a: Seq<usize>, b: Seq<usize>)
    ensures
        (a + b).to_set() == a.to_set().union(b.to_set()),
{
    assert forall|x: usize| #[trigger] (a + b).contains(x) <==> a.contains(x) || b.contains(x) by {
        if a.contains(x) {
            let k = choose|k: int| 0 <= k < a.len() && a[k] == x;
            assert((a + b)[k] == x);
        }
        if b.contains(x) {
            let k = choose|k: int| 0 <= k < b.len() && b[k] == x;
            assert((a + b)[a.len() + k] == x);
        }
    }
    assert((a + b).to_set() =~= a.to_set().union(b.to_set()));
}

/// Why a library is linked to.
#[derive(Debug, Clone, Copy, PartialEq, Eq, Structural)]
pub enum LinkReason {
    /// It belongs to a dependency.
    Dependency,
    /// It belongs to the same package.
    LocalLib,
}

/// A library that is linked to: a target of a package, and why.
pub struct Link {
    pub pkg: usize,
    pub target: usize,
    pub reason: LinkReason,
}

/// The kind of the results of `linked` that results of `kind` are linked to: those of a plugin are
/// plugins, and so is what is linked into one.
pub open spec fn link_kind(linked: Target, kind: Kind) -> Kind {
    if kind == Kind::KindPlugin || linked.profile.plugin {
        Kind::KindPlugin
    } else {
        Kind::KindTarget
    }
}

/// The directory that holds the results of `linked`.
pub open spec fn link_dir(cx: Context, linked: Target, kind: Kind, reason: LinkReason) -> Seq<u8> {
    let layout = cx.layout_of(link_kind(linked, kind));
    match reason {
        LinkReason::Dependency => layout.deps@,
        LinkReason::LocalLib => layout.root@,
    }
}

/// For each of `filenames`, the name of a library and where it is found.
pub open spec fn locations(name: Seq<char>, dir: Seq<u8>, filenames: Seq<String>) -> Seq<Seq<u8>> {
    filenames.map_values(
        |filename: String| utf8(name).push(EQUALS) + dir.push(SEPARATOR) + utf8(filename@),
    )
}

/// The arguments for a library that is linked to and whose files are known.
pub open spec fn link_args(cx: Context, kind: Kind, link: Link) -> Seq<Seq<u8>> {
    let linked = cx.target(link.pkg as int, link.target as int);
    flagged(
        utf8("--extern"@),
        locations(
            linked.name@,
            link_dir(cx, linked, kind, link.reason),
            cx.target_data(link.pkg as int, link.target as int).filenames->Ok_0@,
        ),
    )
}

/// The arguments for libraries that are linked to and whose files are known.
pub open spec fn links_args(cx: Context, kind: Kind, links: Seq<Link>) -> Seq<Seq<u8>>
    decreases links.len(),
{
    if links.len() == 0 {
        Seq::empty()
    } else {
        links_args(cx, kind, links.drop_last()) + link_args(cx, kind, links.last())
    }
}

/// Why the files of a library are not known.
pub open spec fn link_error(cx: Context, link: Link) -> Option<ErrorView> {
    match cx.target_data(link.pkg as int, link.target as int).filenames {
        Ok(_) => None,
        Err(error) => Some(error@),
    }
}

/// Why the files of the first library are not known of which they are not.
pub open spec fn links_error(cx: Context, links: Seq<Link>) -> Option<ErrorView>
    decreases links.len(),
{
    if links.len() == 0 {
        None
    } else {
        match links_error(cx, links.drop_last()) {
            Some(error) => Some(error),
            None => link_error(cx, links.last()),
        }
    }
}

/// The libraries of direct dependencies that a package is linked to.
pub open spec fn dep_links(cx: Context, pkg: int) -> Seq<Link> {
    cx.data.packages@[pkg].dep_targets@.map_values(
        |named: (usize, usize)|
            Link { pkg: named.0, target: named.1, reason: LinkReason::Dependency },
    )
}

/// Whether the programs of a package are linked to one of its targets: they are to its libraries,
/// as far as those are compiled and not static.
pub open spec fn links_locally(target: Target) -> bool {
    target.lib && target.profile.compile && !target.staticlib
}

/// Those of the first `count` targets of a package that its programs are linked to.
pub open spec fn local_links(cx: Context, pkg: int, count: int) -> Seq<Link>
    decreases count,
{
    if count <= 0 {
        Seq::empty()
    } else if links_locally(cx.target(pkg, count - 1)) {
        local_links(cx, pkg, count - 1).push(
            Link {
                pkg: pkg as usize,
                target: (count - 1) as usize,
                reason: LinkReason::LocalLib,
            },
        )
    } else {
        local_links(cx, pkg, count - 1)
    }
}

/// All that a target is linked to.
pub open spec fn links(cx: Context, pkg: int, target: int) -> Seq<Link> {
    dep_links(cx, pkg) + if cx.target(pkg, target).bin {
        local_links(cx, pkg, cx.package(pkg).targets@.len() as int)
    } else {
        Seq::empty()
    }
}

/// The arguments for the directories that libraries are searched in.
pub open spec fn search_args(cx: Context, pkg: int, kind: Kind) -> Seq<Seq<u8>> {
    let layout = cx.layout_of(kind);
    seq![utf8("-L"@), layout.root@, utf8("-L"@), layout.deps@] + native_args(
        cx,
        layout,
        visit(cx.ws.resolve, pkg as usize, Set::empty()),
    )
}

/// The arguments that make the results of dependencies known to the compiler, or why there are
/// none.
pub open spec fn deps_args(
    cx: Context,
    pkg: int,
    target: int,
    kind: Kind,
) -> Result<Seq<Seq<u8>>, ErrorView> {
    match links_error(cx, links(cx, pkg, target)) {
        Some(error) => Err(error),
        None => Ok(
            search_args(cx, pkg, kind) + links_args(cx, kind, links(cx, pkg, target)),
        ),
    }
}

/// `out` is `cmd` with the given arguments, or the given error.
pub open spec fn extended(
    out: Result<ProcessBuilder, CargoError>,
    cmd: Command,
    args: Result<Seq<Seq<u8>>, ErrorView>,
) -> bool {
    match (out, args) {
        (Ok(out), Ok(args)) => out@ == cmd.with_args(args),
        (Err(error), Err(why)) => error@ == why,
        _ => false,
    }
}

/// Adds the arguments for a library that is linked to.
pub fn link_to(
    cmd: ProcessBuilder,
    pkg: usize,
    target: usize,
    cx: &Context,
    kind: Kind,
    reason: LinkReason,
) -> (out: Result<ProcessBuilder, CargoError>)
    requires
        cx.wf(),
        cx.has_target(pkg as int, target as int),
    ensures
        extended(
            out,
            cmd@,
            match link_error(*cx, (Link { pkg, target, reason })) {
                Some(error) => Err(error),
                None => Ok(link_args(*cx, kind, (Link { pkg, target, reason }))),
            },
        ),
{
    assert(cx.data.package_fits(*cx.ws, pkg as int));
    let linked = &cx.ws.packages[pkg].targets[target];
    // What is a plugin, or is linked into one, is found among the plugins.
    let layout = cx.layout(
        match kind {
            Kind::KindPlugin => Kind::KindPlugin,
            Kind::KindTarget => if linked.profile.plugin {
                Kind::KindPlugin
            } else {
                Kind::KindTarget
            },
        },
    );
    let dir = match reason {
        LinkReason::Dependency => &layout.deps,
        LinkReason::LocalLib => &layout.root,
    };
    match &cx.data.packages[pkg].targets[target].filenames {
        Ok(filenames) => {
            let ghost given = cmd@;
            let ghost all = locations(linked.name@, dir@, filenames@);
            let mut cmd = cmd;
            assert(cmd@ =~= given.with_args(flagged(utf8("--extern"@), all.take(0))));
            for i in 0..filenames.len()
                invariant
                    all == locations(linked.name@, dir@, filenames@),
                    cmd@ == given.with_args(flagged(utf8("--extern"@), all.take(i as int))),
            {
                let mut location = to_bytes(linked.name.as_str());
                location.push(EQUALS);
                push_bytes(&mut location, dir.repr.as_slice());
                location.push(SEPARATOR);
                push_bytes(&mut location, filenames[i].as_str().as_bytes());
                assert(location@ =~= all[i as int]);
                cmd = with_flag(cmd, "--extern", location.as_slice());
                assert(all.take(i + 1).drop_last() =~= all.take(i as int));
                assert(cmd@ =~= given.with_args(flagged(utf8("--extern"@), all.take(i + 1))));
            }
            assert(all.take(all.len() as int) =~= all);
            Ok(cmd)
        },
        Err(error) => Err(error.clone()),
    }
}

proof fn lemma_links_error_first(cx: Context, a: Seq<Link>, b: Seq<Link>)
    requires
        links_error(cx, a) is Some,
    ensures
        links_error(cx, a + b) == links_error(cx, a),
    decreases b.len(),
{
    if b.len() == 0 {
        assert(a + b =~= a);
    } else {
        assert((a + b).drop_last() =~= a + b.drop_last());
        lemma_links_error_first(cx, a, b.drop_last());
    }
}

/// Adds the arguments that make the results of dependencies known to the compiler.
pub fn build_deps_args(
    cmd: ProcessBuilder,
    target: usize,
    pkg: usize,
    cx: &Context,
    kind: Kind,
) -> (out: Result<ProcessBuilder, CargoError>)
    requires
        cx.wf(),
        cx.has_target(pkg as int, target as int),
    ensures
        extended(out, cmd@, deps_args(*cx, pkg as int, target as int, kind)),
{
    broadcast use vstd::std_specs::hash::group_hash_axioms;

    assert(cx.data.package_fits(*cx.ws, pkg as int));
    let ghost given = cmd@;
    let ghost all = links(*cx, pkg as int, target as int);
    let ghost near = dep_links(*cx, pkg as int);
    let layout = cx.layout(kind);
    let mut cmd = with_flag(cmd, "-L", layout.root.repr.as_slice());
    cmd = with_flag(cmd, "-L", layout.deps.repr.as_slice());
    // The whole graph of dependencies can hold directories with native libraries.
    let mut visited: HashSet<usize> = HashSet::new();
    assert(visited@ =~= Set::empty());
    cmd = push_native_dirs(cmd, layout, pkg, cx, &mut visited);
    let ghost start = search_args(*cx, pkg as int, kind);
    assert(cmd@ =~= given.with_args(start));
    let deps = &cx.data.packages[pkg].dep_targets;
    assert(cmd@ =~= given.with_args(start + links_args(*cx, kind, near.take(0))));
    for i in 0..deps.len()
        invariant
            cx.wf(),
            cx.has_target(pkg as int, target as int),
            deps@ == cx.data.packages@[pkg as int].dep_targets@,
            cx.data.package_fits(*cx.ws, pkg as int),
            near == dep_links(*cx, pkg as int),
            all == links(*cx, pkg as int, target as int),
            start == search_args(*cx, pkg as int, kind),
            links_error(*cx, near.take(i as int)) is None,
            cmd@ == given.with_args(start + links_args(*cx, kind, near.take(i as int))),
    {
        let (dep_pkg, dep_target) = deps[i];
        assert(near.take(i + 1).drop_last() =~= near.take(i as int));
        assert(crate::context::ContextData::names_target(
            *cx.ws,
            cx.data.packages@[pkg as int].dep_targets@[i as int],
        ));
        cmd = match link_to(cmd, dep_pkg, dep_target, cx, kind, LinkReason::Dependency) {
            Ok(cmd) => cmd,
            Err(error) => {
                proof {
                    let rest = all.skip(i + 1);
                    assert(all =~= near.take(i + 1) + rest);
                    lemma_links_error_first(*cx, near.take(i + 1), rest);
                }
                return Err(error);
            },
        };
        assert(cmd@ =~= given.with_args(start + links_args(*cx, kind, near.take(i + 1))));
    }
    assert(near.take(near.len() as int) =~= near);
    let targets = &cx.ws.packages[pkg].targets;
    if targets[target].bin {
        let ghost mut done = near;
        assert(near + Seq::<Link>::empty() =~= near);
        for i in 0..targets.len()
            invariant
                cx.wf(),
                cx.has_target(pkg as int, target as int),
                targets@ == cx.package(pkg as int).targets@,
                near == dep_links(*cx, pkg as int),
                all == links(*cx, pkg as int, target as int),
                all == near + local_links(*cx, pkg as int, targets@.len() as int),
                start == search_args(*cx, pkg as int, kind),
                done == near + local_links(*cx, pkg as int, i as int),
                links_error(*cx, done) is None,
                cmd@ == given.with_args(start + links_args(*cx, kind, done)),
        {
            if targets[i].lib && targets[i].profile.compile {
                if !targets[i].staticlib {
                    let ghost before = done;
                    proof {
                        done = near + local_links(*cx, pkg as int, i + 1);
                        assert(done.drop_last() =~= before);
                    }
                    cmd = match link_to(cmd, pkg, i, cx, kind, LinkReason::LocalLib) {
                        Ok(cmd) => cmd,
                        Err(error) => {
                            proof {
                                lemma_local_links_prefix(*cx, pkg as int, i + 1, targets@.len() as int);
                                let more = local_links(*cx, pkg as int, targets@.len() as int);
                                let fewer = local_links(*cx, pkg as int, i + 1);
                                let rest = more.skip(fewer.len() as int);
                                assert(more =~= fewer + rest);
                                assert(all =~= done + rest);
                                lemma_links_error_first(*cx, done, rest);
                            }
                            return Err(error);
                        },
                    };
                    assert(cmd@ =~= given.with_args(start + links_args(*cx, kind, done)));
                }
            }
        }
    } else {
        assert(all =~= near);
    }
    Ok(cmd)
}

proof fn lemma_local_links_prefix(cx: Context, pkg: int, fewer: int, more: int)
    requires
        0 <= fewer <= more,
    ensures
        local_links(cx, pkg, fewer).is_prefix_of(local_links(cx, pkg, more)),
    decreases more,
{
    if fewer < more {
        lemma_local_links_prefix(cx, pkg, fewer, more - 1);
    }
}

proof fn lemma_native_dirs(cx: Context, layout: Layout, pkgs: Seq<usize>)
    ensures
        forall|i: int|
            0 <= i < pkgs.len() && cx.package(pkgs[i] as int).build@.len() > 0 ==> native_dirs(
                cx,
                layout,
                pkgs,
            ).contains(layout.native@[#[trigger] pkgs[i] as int]@),
        forall|k: int|
            0 <= k < native_dirs(cx, layout, pkgs).len() ==> exists|i: int|
                0 <= i < pkgs.len() && cx.package(pkgs[i] as int).build@.len() > 0
                    && #[trigger] native_dirs(cx, layout, pkgs)[k] == layout.native@[pkgs[i] as int]@,
    decreases pkgs.len(),
{
    if pkgs.len() > 0 {
        let front = pkgs.drop_last();
        let last = pkgs.len() - 1;
        lemma_native_dirs(cx, layout, front);
        let before = native_dirs(cx, layout, front);
        let all = native_dirs(cx, layout, pkgs);
        assert forall|i: int|
            0 <= i < pkgs.len() && cx.package(pkgs[i] as int).build@.len() > 0 implies all.contains(
            layout.native@[#[trigger] pkgs[i] as int]@,
        ) by {
            if i < last {
                assert(front[i] == pkgs[i]);
                let dir = layout.native@[front[i] as int]@;
                let k = choose|k: int| 0 <= k < before.len() && before[k] == dir;
                assert(all[k] == dir);
            } else {
                assert(all[all.len() - 1] == layout.native@[pkgs[i] as int]@);
            }
        }
        assert forall|k: int| 0 <= k < all.len() implies exists|i: int|
            0 <= i < pkgs.len() && cx.package(pkgs[i] as int).build@.len() > 0
                && #[trigger] all[k] == layout.native@[pkgs[i] as int]@ by {
            if k < before.len() {
                assert(all[k] == before[k]);
                let i = choose|i: int|
                    0 <= i < front.len() && cx.package(front[i] as int).build@.len() > 0 && before[k]
                        == layout.native@[front[i] as int]@;
                assert(pkgs[i] == front[i]);
            } else {
                assert(pkgs[last] == pkgs.last());
            }
        }
    }
}

/// No two packages share the directory that their build commands put their results in.
pub open spec fn native_dirs_separate(layout: Layout) -> bool {
    forall|i: int, j: int|
        0 <= i < j < layout.native@.len() ==> (#[trigger] layout.native@[i])@ != (
        #[trigger] layout.native@[j])@
}

proof fn lemma_native_dirs_once(cx: Context, layout: Layout, pkgs: Seq<usize>)
    requires
        pkgs.no_duplicates(),
        forall|i: int| 0 <= i < pkgs.len() ==> #[trigger] pkgs[i] < layout.native@.len(),
        native_dirs_separate(layout),
    ensures
        native_dirs(cx, layout, pkgs).no_duplicates(),
    decreases pkgs.len(),
{
    if pkgs.len() > 0 {
        let front = pkgs.drop_last();
        let last = pkgs.len() - 1;
        lemma_native_dirs_once(cx, layout, front);
        lemma_native_dirs(cx, layout, front);
        let before = native_dirs(cx, layout, front);
        let all = native_dirs(cx, layout, pkgs);
        assert forall|k: int| 0 <= k < before.len() implies #[trigger] before[k]
            != layout.native@[pkgs[last] as int]@ by {
            let i = choose|i: int|
                0 <= i < front.len() && cx.package(front[i] as int).build@.len() > 0 && before[k]
                    == layout.native@[front[i] as int]@;
            assert(front[i] == pkgs[i]);
            assert(pkgs[i] != pkgs[last]);
            if pkgs[i] < pkgs[last] {
                assert(layout.native@[pkgs[i] as int]@ != layout.native@[pkgs[last] as int]@);
            } else {
                assert(layout.native@[pkgs[last] as int]@ != layout.native@[pkgs[i] as int]@);
            }
        }
    }
}

/// Of the packages that `pkg` reaches, `pkg` included, exactly those with build commands have their
/// directory searched, and where no two packages share a directory none is searched twice.
pub proof fn law_native_dirs(cx: Context, layout: Layout, pkg: usize)
    requires
        cx.wf(),
        cx.has_package(pkg as int),
        layout.covers(cx.ws.packages@.len()),
    ensures
        ({
            let dirs = native_dirs(cx, layout, visit(cx.ws.resolve, pkg, Set::empty()));
            &&& forall|other: usize| #[trigger]
                reaches(cx.ws.resolve, pkg, other) && cx.package(other as int).build@.len() > 0
                    ==> dirs.contains(layout.native@[other as int]@)
            &&& forall|k: int|
                0 <= k < dirs.len() ==> exists|other: usize|
                    reaches(cx.ws.resolve, pkg, other) && cx.package(other as int).build@.len() > 0
                        && #[trigger] dirs[k] == layout.native@[other as int]@
            &&& native_dirs_separate(layout) ==> dirs.no_duplicates()
        }),
{
    let pkgs = visit(cx.ws.resolve, pkg, Set::empty());
    let dirs = native_dirs(cx, layout, pkgs);
    law_visit_meets_what_is_reached(cx.ws.resolve, pkg);
    lemma_native_dirs(cx, layout, pkgs);
    assert forall|other: usize| #[trigger]
        reaches(cx.ws.resolve, pkg, other) && cx.package(other as int).build@.len() > 0 implies dirs.contains(
        layout.native@[other as int]@,
    ) by {
        assert(pkgs.contains(other));
        let i = choose|i: int| 0 <= i < pkgs.len() && pkgs[i] == other;
        assert(pkgs[i] == other);
    }
    assert forall|k: int| 0 <= k < dirs.len() implies exists|other: usize|
        reaches(cx.ws.resolve, pkg, other) && cx.package(other as int).build@.len() > 0
            && #[trigger] dirs[k] == layout.native@[other as int]@ by {
        let i = choose|i: int|
            0 <= i < pkgs.len() && cx.package(pkgs[i] as int).build@.len() > 0 && dirs[k]
                == layout.native@[pkgs[i] as int]@;
        assert(pkgs.contains(pkgs[i]));
        assert(reaches(cx.ws.resolve, pkg, pkgs[i]));
    }
    if native_dirs_separate(layout) {
        lemma_visit_within(cx.ws.resolve, pkg);
        lemma_native_dirs_once(cx, layout, pkgs);
    }
}

/// What is linked into a plugin, and what is a plugin, is found among the plugins; the rest is not.
pub proof fn law_plugins_are_found_among_plugins(
    cx: Context,
    linked: Target,
    kind: Kind,
    reason: LinkReason,
)
    ensures
        kind == Kind::KindPlugin || linked.profile.plugin ==> link_dir(cx, linked, kind, reason)
            == link_dir(cx, linked, Kind::KindPlugin, reason),
        kind == Kind::KindTarget && !linked.profile.plugin ==> link_dir(cx, linked, kind, reason) == (
        match reason {
            LinkReason::Dependency => cx.layout_of(Kind::KindTarget).deps@,
            LinkReason::LocalLib => cx.layout_of(Kind::KindTarget).root@,
        }),
{
}

/// `args` hold `flag` and right behind it `value`.
pub open spec fn holds_flag(args: Seq<Seq<u8>>, flag: Seq<u8>, value: Seq<u8>) -> bool {
    exists|i: int| 0 <= i < args.len() - 1 && #[trigger] args[i] == flag && args[i + 1] == value
}

proof fn lemma_flagged_holds(flag: Seq<u8>, values: Seq<Seq<u8>>, at: int)
    requires
        0 <= at < values.len(),
    ensures
        holds_flag(flagged(flag, values), flag, values[at]),
    decreases values.len(),
{
    let all = flagged(flag, values);
    let front = flagged(flag, values.drop_last());
    if at < values.len() - 1 {
        lemma_flagged_holds(flag, values.drop_last(), at);
        lemma_holds_flag_add(front, seq![flag, values.last()], flag, values[at]);
    } else {
        assert(all[front.len() as int] == flag);
        assert(all[front.len() as int + 1] == values[at]);
    }
}

proof fn lemma_holds_flag_add(a: Seq<Seq<u8>>, b: Seq<Seq<u8>>, flag: Seq<u8>, value: Seq<u8>)
    ensures
        holds_flag(a, flag, value) ==> holds_flag(a + b, flag, value),
        holds_flag(b, flag, value) ==> holds_flag(a + b, flag, value),
{
    if holds_flag(a, flag, value) {
        let i = choose|i: int| 0 <= i < a.len() - 1 && #[trigger] a[i] == flag && a[i + 1] == value;
        assert((a + b)[i] == flag && (a + b)[i + 1] == value);
    }
    if holds_flag(b, flag, value) {
        let i = choose|i: int| 0 <= i < b.len() - 1 && #[trigger] b[i] == flag && b[i + 1] == value;
        assert((a + b)[a.len() + i] == flag && (a + b)[a.len() + i + 1] == value);
    }
}

/// Where a library is found, for one of its files.
pub open spec fn location(cx: Context, kind: Kind, link: Link, file: int) -> Seq<u8> {
    let linked = cx.target(link.pkg as int, link.target as int);
    locations(
        linked.name@,
        link_dir(cx, linked, kind, link.reason),
        cx.target_data(link.pkg as int, link.target as int).filenames->Ok_0@,
    )[file]
}

proof fn lemma_links_named(cx: Context, kind: Kind, all: Seq<Link>, at: int, file: int)
    requires
        0 <= at < all.len(),
        0 <= file < cx.target_data(
            all[at].pkg as int,
            all[at].target as int,
        ).filenames->Ok_0@.len(),
    ensures
        holds_flag(
            links_args(cx, kind, all),
            utf8("--extern"@),
            location(cx, kind, all[at], file),
        ),
    decreases all.len(),
{
    let flag = utf8("--extern"@);
    let value = location(cx, kind, all[at], file);
    let front = links_args(cx, kind, all.drop_last());
    let last = link_args(cx, kind, all.last());
    if at < all.len() - 1 {
        lemma_links_named(cx, kind, all.drop_last(), at, file);
    } else {
        let linked = cx.target(all[at].pkg as int, all[at].target as int);
        let values = locations(
            linked.name@,
            link_dir(cx, linked, kind, all[at].reason),
            cx.target_data(all[at].pkg as int, all[at].target as int).filenames->Ok_0@,
        );
        lemma_flagged_holds(flag, values, file);
    }
    lemma_holds_flag_add(front, last, flag, value);
}

/// The compiler is told of each file of each library that a target is linked to.
pub proof fn law_each_library_is_named(
    cx: Context,
    pkg: int,
    target: int,
    kind: Kind,
    at: int,
    file: int,
)
    requires
        deps_args(cx, pkg, target, kind) is Ok,
        0 <= at < links(cx, pkg, target).len(),
        0 <= file < cx.target_data(
            links(cx, pkg, target)[at].pkg as int,
            links(cx, pkg, target)[at].target as int,
        ).filenames->Ok_0@.len(),
    ensures
        holds_flag(
            deps_args(cx, pkg, target, kind)->Ok_0,
            utf8("--extern"@),
            location(cx, kind, links(cx, pkg, target)[at], file),
        ),
{
    let all = links(cx, pkg, target);
    lemma_links_named(cx, kind, all, at, file);
    lemma_holds_flag_add(
        search_args(cx, pkg, kind),
        links_args(cx, kind, all),
        utf8("--extern"@),
        location(cx, kind, all[at], file),
    );
}

/// Whether the arguments for the dependencies of a target can be had does not depend on the kind of
/// the results.
pub proof fn law_links_fail_alike(cx: Context, pkg: int, target: int, a: Kind, b: Kind)
    ensures
        deps_args(cx, pkg, target, a) is Err <==> deps_args(cx, pkg, target, b) is Err,
        deps_args(cx, pkg, target, a) is Err ==> deps_args(cx, pkg, target, a)->Err_0 == deps_args(
            cx,
            pkg,
            target,
            b,
        )->Err_0,
{
}

} // verus!
