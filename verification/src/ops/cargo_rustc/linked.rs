//! What a target is linked to, and where that is found.

use crate::context::{Context, Kind};
use crate::error::ErrorView;
use crate::ops::cargo_rustc::args::flagged;
use crate::ops::cargo_rustc::deps::{
    dep_links, deps_args, law_native_dirs, link_args, link_dir, link_error, links, links_args,
    links_error, local_links, locations, native_dirs, native_dirs_separate, Link, LinkReason,
};
use crate::ops::cargo_rustc::reading::{
    lemma_flags, lemma_read_add, lemma_read_flag, lemma_read_flagged, lemma_read_nothing, switches,
    values, whole,
};
use crate::reach::{reaches, visit};
use crate::text::utf8;
use vstd::prelude::*;

verus! {

/// How the compiler is told where a file of a library is: the name of the library, `=`, the
/// directory, `/`, and the name of the file.
pub open spec fn file_location(name: Seq<char>, dir: Seq<u8>, file: Seq<char>) -> Seq<u8> {
    utf8(name) + seq![61u8] + dir + seq![47u8] + utf8(file)
}

/// `value` tells where a file of a library of a dependency is, the one at `at` among those that the
/// package is linked to. What is a plugin, or is linked into one, is found among the plugins.
pub open spec fn tells_of_dependency(
    cx: Context,
    pkg: int,
    kind: Kind,
    at: int,
    file: int,
    value: Seq<u8>,
) -> bool {
    let named = cx.data.packages@[pkg].dep_targets@[at];
    let linked = cx.ws.packages@[named.0 as int].targets@[named.1 as int];
    let files = cx.data.packages@[named.0 as int].targets@[named.1 as int].filenames->Ok_0@;
    let layout = if kind == Kind::KindPlugin || linked.profile.plugin {
        cx.layout_of(Kind::KindPlugin)
    } else {
        cx.layout_of(Kind::KindTarget)
    };
    &&& 0 <= at < cx.data.packages@[pkg].dep_targets@.len()
    &&& 0 <= file < files.len()
    &&& value == file_location(linked.name@, layout.deps@, files[file]@)
}

/// `value` tells where a file of a library of the package itself is, its target at `at`.
pub open spec fn tells_of_own_library(
    cx: Context,
    pkg: int,
    kind: Kind,
    at: int,
    file: int,
    value: Seq<u8>,
) -> bool {
    let linked = cx.ws.packages@[pkg].targets@[at];
    let files = cx.data.packages@[pkg].targets@[at].filenames->Ok_0@;
    let layout = if kind == Kind::KindPlugin || linked.profile.plugin {
        cx.layout_of(Kind::KindPlugin)
    } else {
        cx.layout_of(Kind::KindTarget)
    };
    &&& 0 <= at < cx.ws.packages@[pkg].targets@.len()
    &&& linked.lib && linked.profile.compile && !linked.staticlib
    &&& 0 <= file < files.len()
    &&& value == file_location(linked.name@, layout.root@, files[file]@)
}

/// The files of a library that is linked to.
spec fn files_of(cx: Context, link: Link) -> Seq<String> {
    cx.target_data(link.pkg as int, link.target as int).filenames->Ok_0@
}

/// Where the files of a library that is linked to are found.
spec fn places(cx: Context, kind: Kind, link: Link) -> Seq<Seq<u8>> {
    let linked = cx.target(link.pkg as int, link.target as int);
    locations(linked.name@, link_dir(cx, linked, kind, link.reason), files_of(cx, link))
}

spec fn is_place(cx: Context, kind: Kind, all: Seq<Link>, at: int, file: int, value: Seq<u8>) -> bool {
    &&& 0 <= at < all.len()
    &&& 0 <= file < places(cx, kind, all[at]).len()
    &&& value == places(cx, kind, all[at])[file]
}

spec fn is_any_place(cx: Context, kind: Kind, all: Seq<Link>, value: Seq<u8>) -> bool {
    exists|at: int, file: int| #[trigger] is_place(cx, kind, all, at, file, value)
}

proof fn lemma_links_as_read(cx: Context, kind: Kind, all: Seq<Link>)
    ensures
        ({
            let args = links_args(cx, kind, all);
            let named = values(args, utf8("--extern"@));
            &&& whole(args)
            &&& switches(args) == Seq::<Seq<u8>>::empty()
            &&& forall|flag: Seq<u8>|
                flag != utf8("--extern"@) ==> #[trigger] values(args, flag) == Seq::<Seq<u8>>::empty()
            &&& forall|at: int, file: int, value: Seq<u8>| #[trigger]
                is_place(cx, kind, all, at, file, value) ==> named.contains(value)
            &&& forall|k: int|
                0 <= k < named.len() ==> is_any_place(cx, kind, all, #[trigger] named[k])
        }),
    decreases all.len(),
{
    let flag = utf8("--extern"@);
    let args = links_args(cx, kind, all);
    let named = values(args, flag);
    if all.len() == 0 {
        lemma_read_nothing(args);
    } else {
        let front = all.drop_last();
        let last = all.len() - 1;
        let given = places(cx, kind, all[last]);
        let own = link_args(cx, kind, all[last]);
        lemma_links_as_read(cx, kind, front);
        lemma_read_flagged(flag, given);
        lemma_read_add(links_args(cx, kind, front), own);
        assert(own == flagged(flag, given));
        let before = values(links_args(cx, kind, front), flag);
        assert(named == before + given);
        assert(switches(args) =~= Seq::empty());
        assert forall|other: Seq<u8>| other != flag implies #[trigger] values(args, other)
            == Seq::<Seq<u8>>::empty() by {
            assert(values(args, other) == values(links_args(cx, kind, front), other) + values(
                own,
                other,
            ));
            assert(values(args, other) =~= Seq::empty());
        }
        assert forall|at: int, file: int, value: Seq<u8>| #[trigger]
            is_place(cx, kind, all, at, file, value) implies named.contains(value) by {
            if at < last {
                assert(front[at] == all[at]);
                assert(is_place(cx, kind, front, at, file, value));
                let k = choose|k: int| 0 <= k < before.len() && before[k] == value;
                assert(named[k] == value);
            } else {
                assert(named[before.len() + file] == value);
            }
        }
        assert forall|k: int| 0 <= k < named.len() implies is_any_place(
            cx,
            kind,
            all,
            #[trigger] named[k],
        ) by {
            if k < before.len() {
                assert(named[k] == before[k]);
                assert(is_any_place(cx, kind, front, before[k]));
                let (at, file) = choose|at: int, file: int| #[trigger]
                    is_place(cx, kind, front, at, file, before[k]);
                assert(front[at] == all[at]);
                assert(is_place(cx, kind, all, at, file, named[k]));
            } else {
                assert(is_place(cx, kind, all, last, k - before.len(), named[k]));
            }
        }
    }
}

/// How the arguments for dependencies are read.
proof fn lemma_deps_as_read(cx: Context, pkg: int, target: int, kind: Kind)
    requires
        deps_args(cx, pkg, target, kind) is Ok,
    ensures
        ({
            let args = deps_args(cx, pkg, target, kind)->Ok_0;
            let layout = cx.layout_of(kind);
            let searched = seq![layout.root@, layout.deps@] + native_dirs(
                cx,
                layout,
                visit(cx.ws.resolve, pkg as usize, Set::empty()),
            );
            &&& whole(args)
            &&& switches(args) == Seq::<Seq<u8>>::empty()
            &&& values(args, utf8("-L"@)) == searched
            &&& values(args, utf8("--extern"@)) == values(
                links_args(cx, kind, links(cx, pkg, target)),
                utf8("--extern"@),
            )
            &&& forall|flag: Seq<u8>|
                flag != utf8("--extern"@) && flag != utf8("-L"@) ==> #[trigger] values(args, flag)
                    == Seq::<Seq<u8>>::empty()
        }),
{
    let args = deps_args(cx, pkg, target, kind)->Ok_0;
    let layout = cx.layout_of(kind);
    let flag = utf8("-L"@);
    let dirs = native_dirs(cx, layout, visit(cx.ws.resolve, pkg as usize, Set::empty()));
    let r = seq![flag, layout.root@];
    let d = seq![flag, layout.deps@];
    let n = flagged(flag, dirs);
    let l = links_args(cx, kind, links(cx, pkg, target));
    lemma_flags();
    lemma_read_flag(r, flag, layout.root@);
    lemma_read_flag(d, flag, layout.deps@);
    lemma_read_flagged(flag, dirs);
    lemma_links_as_read(cx, kind, links(cx, pkg, target));
    lemma_read_add(r, d);
    lemma_read_add(r + d, n);
    lemma_read_add(r + d + n, l);
    assert(args =~= r + d + n + l);
    assert forall|other: Seq<u8>| #[trigger]
        values(args, other) == values(r, other) + values(d, other) + values(n, other) + values(
            l,
            other,
        ) by {
        assert(values(r + d, other) == values(r, other) + values(d, other));
        assert(values(r + d + n, other) == values(r + d, other) + values(n, other));
    }
    assert(switches(args) =~= Seq::empty());
    assert(values(args, flag) =~= seq![layout.root@, layout.deps@] + dirs);
    assert(values(args, utf8("--extern"@)) =~= values(l, utf8("--extern"@)));
    assert forall|other: Seq<u8>| other != utf8("--extern"@) && other != flag implies #[trigger] values(
        args,
        other,
    ) == Seq::<Seq<u8>>::empty() by {
        assert(values(args, other) =~= Seq::empty());
    }
}

proof fn lemma_local_links(cx: Context, pkg: int, count: int)
    requires
        0 <= pkg <= usize::MAX,
        count <= usize::MAX,
    ensures
        forall|at: int|
            0 <= at < count && cx.ws.packages@[pkg].targets@[at].lib
                && cx.ws.packages@[pkg].targets@[at].profile.compile
                && !cx.ws.packages@[pkg].targets@[at].staticlib ==> local_links(
                cx,
                pkg,
                count,
            ).contains(#[trigger] own_link(pkg, at)),
        forall|k: int|
            0 <= k < local_links(cx, pkg, count).len() ==> {
                let link = #[trigger] local_links(cx, pkg, count)[k];
                &&& link == own_link(pkg, link.target as int)
                &&& link.target < count
                &&& cx.ws.packages@[pkg].targets@[link.target as int].lib
                &&& cx.ws.packages@[pkg].targets@[link.target as int].profile.compile
                &&& !cx.ws.packages@[pkg].targets@[link.target as int].staticlib
            },
    decreases count,
{
    if count > 0 {
        lemma_local_links(cx, pkg, count - 1);
        let before = local_links(cx, pkg, count - 1);
        let all = local_links(cx, pkg, count);
        assert forall|at: int|
            0 <= at < count && cx.ws.packages@[pkg].targets@[at].lib
                && cx.ws.packages@[pkg].targets@[at].profile.compile
                && !cx.ws.packages@[pkg].targets@[at].staticlib implies all.contains(
            #[trigger] own_link(pkg, at),
        ) by {
            if at < count - 1 {
                let k = choose|k: int| 0 <= k < before.len() && before[k] == own_link(pkg, at);
                assert(all[k] == own_link(pkg, at));
            } else {
                assert(all[all.len() - 1] == own_link(pkg, at));
            }
        }
        assert forall|k: int| 0 <= k < all.len() implies {
            let link = #[trigger] all[k];
            &&& link == own_link(pkg, link.target as int)
            &&& link.target < count
            &&& cx.ws.packages@[pkg].targets@[link.target as int].lib
            &&& cx.ws.packages@[pkg].targets@[link.target as int].profile.compile
            &&& !cx.ws.packages@[pkg].targets@[link.target as int].staticlib
        } by {
            if k < before.len() {
                assert(all[k] == before[k]);
            }
        }
    }
}

/// The link to a library of the package itself.
spec fn own_link(pkg: int, at: int) -> Link {
    Link { pkg: pkg as usize, target: at as usize, reason: LinkReason::LocalLib }
}

proof fn lemma_bounds(cx: Context, pkg: int)
    requires
        cx.has_package(pkg),
    ensures
        pkg <= usize::MAX,
        cx.ws.packages@[pkg].targets@.len() <= usize::MAX,
{
    assert(cx.ws.packages.len() == cx.ws.packages@.len());
    assert(cx.ws.packages@[pkg].targets.len() == cx.ws.packages@[pkg].targets@.len());
}

/// The compiler is told of each file of each library of a dependency that the package is linked to,
/// whatever the target is.
pub proof fn law_dependencies_are_named(
    cx: Context,
    pkg: int,
    target: int,
    kind: Kind,
    at: int,
    file: int,
    value: Seq<u8>,
)
    requires
        cx.has_target(pkg, target),
        deps_args(cx, pkg, target, kind) is Ok,
        tells_of_dependency(cx, pkg, kind, at, file, value),
    ensures
        values(deps_args(cx, pkg, target, kind)->Ok_0, utf8("--extern"@)).contains(value),
{
    let all = links(cx, pkg, target);
    lemma_deps_as_read(cx, pkg, target, kind);
    lemma_links_as_read(cx, kind, all);
    assert(all[at] == dep_links(cx, pkg)[at]);
    assert(places(cx, kind, all[at])[file] =~= value);
    assert(is_place(cx, kind, all, at, file, value));
}

/// A program is linked to each library of its own package that is compiled and not static: the
/// compiler is told of each of its files, whatever else the program is.
pub proof fn law_own_libraries_are_named(
    cx: Context,
    pkg: int,
    target: int,
    kind: Kind,
    at: int,
    file: int,
    value: Seq<u8>,
)
    requires
        cx.has_target(pkg, target),
        deps_args(cx, pkg, target, kind) is Ok,
        cx.ws.packages@[pkg].targets@[target].bin,
        tells_of_own_library(cx, pkg, kind, at, file, value),
    ensures
        values(deps_args(cx, pkg, target, kind)->Ok_0, utf8("--extern"@)).contains(value),
{
    let all = links(cx, pkg, target);
    let count = cx.ws.packages@[pkg].targets@.len() as int;
    let near = dep_links(cx, pkg);
    lemma_bounds(cx, pkg);
    lemma_deps_as_read(cx, pkg, target, kind);
    lemma_links_as_read(cx, kind, all);
    lemma_local_links(cx, pkg, count);
    let own = local_links(cx, pkg, count);
    assert(own.contains(own_link(pkg, at)));
    let k = choose|k: int| 0 <= k < own.len() && own[k] == own_link(pkg, at);
    assert(all[near.len() + k] == own_link(pkg, at));
    assert(places(cx, kind, all[near.len() + k])[file] =~= value);
    assert(is_place(cx, kind, all, near.len() + k, file, value));
}

/// `value` tells where a file of a library is that a target is linked to: of a library of a
/// dependency, or, for a program only, of a compiled library of its own package that is not static.
pub open spec fn tells_of_linked(
    cx: Context,
    pkg: int,
    target: int,
    kind: Kind,
    value: Seq<u8>,
) -> bool {
    ||| exists|at: int, file: int| #[trigger] tells_of_dependency(cx, pkg, kind, at, file, value)
    ||| cx.ws.packages@[pkg].targets@[target].bin && exists|at: int, file: int| #[trigger]
        tells_of_own_library(cx, pkg, kind, at, file, value)
}

proof fn lemma_place_of_linked(
    cx: Context,
    pkg: int,
    target: int,
    kind: Kind,
    at: int,
    file: int,
    value: Seq<u8>,
)
    requires
        cx.has_target(pkg, target),
        is_place(cx, kind, links(cx, pkg, target), at, file, value),
    ensures
        tells_of_linked(cx, pkg, target, kind, value),
{
    let link = links(cx, pkg, target)[at];
    let count = cx.ws.packages@[pkg].targets@.len() as int;
    let near = dep_links(cx, pkg);
    lemma_bounds(cx, pkg);
    if at < near.len() {
        assert(link == near[at]);
        let named = cx.data.packages@[pkg].dep_targets@[at];
        let linked = cx.target(named.0 as int, named.1 as int);
        assert(value =~= file_location(
            linked.name@,
            link_dir(cx, linked, kind, LinkReason::Dependency),
            files_of(cx, link)[file]@,
        ));
        assert(tells_of_dependency(cx, pkg, kind, at, file, value));
    } else {
        lemma_local_links(cx, pkg, count);
        assert(link == local_links(cx, pkg, count)[at - near.len()]);
        let linked = cx.target(pkg, link.target as int);
        assert(value =~= file_location(
            linked.name@,
            link_dir(cx, linked, kind, LinkReason::LocalLib),
            files_of(cx, link)[file]@,
        ));
        assert(tells_of_own_library(cx, pkg, kind, link.target as int, file, value));
    }
}

/// The compiler is told of no other files than those of libraries that the target is linked to, and
/// apart from files and directories it is told nothing.
pub proof fn law_nothing_else_is_named(cx: Context, pkg: int, target: int, kind: Kind)
    requires
        cx.has_target(pkg, target),
        deps_args(cx, pkg, target, kind) is Ok,
    ensures
        ({
            let args = deps_args(cx, pkg, target, kind)->Ok_0;
            let named = values(args, utf8("--extern"@));
            &&& whole(args)
            &&& switches(args).len() == 0
            &&& forall|flag: Seq<u8>|
                flag != utf8("--extern"@) && flag != utf8("-L"@) ==> (#[trigger] values(
                    args,
                    flag,
                )).len() == 0
            &&& forall|k: int|
                0 <= k < named.len() ==> tells_of_linked(cx, pkg, target, kind, #[trigger] named[k])
        }),
{
    let args = deps_args(cx, pkg, target, kind)->Ok_0;
    let named = values(args, utf8("--extern"@));
    let all = links(cx, pkg, target);
    lemma_deps_as_read(cx, pkg, target, kind);
    lemma_links_as_read(cx, kind, all);
    assert forall|k: int| 0 <= k < named.len() implies tells_of_linked(
        cx,
        pkg,
        target,
        kind,
        #[trigger] named[k],
    ) by {
        assert(is_any_place(cx, kind, all, named[k]));
        let (at, file) = choose|at: int, file: int| #[trigger]
            is_place(cx, kind, all, at, file, named[k]);
        lemma_place_of_linked(cx, pkg, target, kind, at, file, named[k]);
    }
}

/// Libraries are searched first where the results of the package at hand go, then where those of
/// dependencies go, and then in exactly the directories that hold what the build commands of the
/// package and of all it depends on made, none of them twice where no two packages share one.
pub proof fn law_searched_directories(cx: Context, pkg: usize, target: int, kind: Kind)
    requires
        cx.wf(),
        cx.has_target(pkg as int, target),
        deps_args(cx, pkg as int, target, kind) is Ok,
    ensures
        ({
            let layout = cx.layout_of(kind);
            let dirs = values(deps_args(cx, pkg as int, target, kind)->Ok_0, utf8("-L"@));
            &&& dirs.len() >= 2
            &&& dirs[0] == layout.root@
            &&& dirs[1] == layout.deps@
            &&& forall|other: usize| #[trigger]
                reaches(cx.ws.resolve, pkg, other) && cx.ws.packages@[other as int].build@.len() > 0
                    ==> dirs.skip(2).contains(layout.native@[other as int]@)
            &&& forall|k: int|
                0 <= k < dirs.skip(2).len() ==> exists|other: usize|
                    reaches(cx.ws.resolve, pkg, other) && cx.ws.packages@[other as int].build@.len()
                        > 0 && #[trigger] dirs.skip(2)[k] == layout.native@[other as int]@
            &&& native_dirs_separate(layout) ==> dirs.skip(2).no_duplicates()
        }),
{
    let layout = cx.layout_of(kind);
    lemma_deps_as_read(cx, pkg as int, target, kind);
    law_native_dirs(cx, layout, pkg);
    let dirs = values(deps_args(cx, pkg as int, target, kind)->Ok_0, utf8("-L"@));
    let native = native_dirs(cx, layout, visit(cx.ws.resolve, pkg, Set::empty()));
    assert(dirs.skip(2) =~= native);
}

/// The files of all libraries that a target is linked to are known.
pub open spec fn all_files_known(cx: Context, pkg: int, target: int) -> bool {
    &&& forall|at: int|
        0 <= at < cx.data.packages@[pkg].dep_targets@.len() ==> {
            let named = #[trigger] cx.data.packages@[pkg].dep_targets@[at];
            cx.data.packages@[named.0 as int].targets@[named.1 as int].filenames is Ok
        }
    &&& cx.ws.packages@[pkg].targets@[target].bin ==> forall|at: int|
        0 <= at < cx.ws.packages@[pkg].targets@.len() && (
        #[trigger] cx.ws.packages@[pkg].targets@[at]).lib
            && cx.ws.packages@[pkg].targets@[at].profile.compile
            && !cx.ws.packages@[pkg].targets@[at].staticlib
            ==> cx.data.packages@[pkg].targets@[at].filenames is Ok
}

proof fn lemma_links_error(cx: Context, all: Seq<Link>)
    ensures
        links_error(cx, all) is None <==> forall|i: int|
            0 <= i < all.len() ==> link_error(cx, #[trigger] all[i]) is None,
    decreases all.len(),
{
    if all.len() > 0 {
        let front = all.drop_last();
        lemma_links_error(cx, front);
        if links_error(cx, all) is None {
            assert forall|i: int| 0 <= i < all.len() implies link_error(cx, #[trigger] all[i]) is None by {
                if i < front.len() {
                    assert(front[i] == all[i]);
                }
            }
        }
        if forall|i: int| 0 <= i < all.len() ==> link_error(cx, #[trigger] all[i]) is None {
            assert forall|i: int| 0 <= i < front.len() implies link_error(cx, #[trigger] front[i]) is None by {
                assert(front[i] == all[i]);
            }
            assert(link_error(cx, all[all.len() - 1]) is None);
        }
    }
}

proof fn lemma_first_link_error(cx: Context, all: Seq<Link>, at: int)
    requires
        0 <= at < all.len(),
        link_error(cx, all[at]) is Some,
        forall|i: int| 0 <= i < at ==> link_error(cx, #[trigger] all[i]) is None,
    ensures
        links_error(cx, all) == link_error(cx, all[at]),
    decreases all.len(),
{
    let front = all.drop_last();
    if at < front.len() {
        assert forall|i: int| 0 <= i < at implies link_error(cx, #[trigger] front[i]) is None by {
            assert(front[i] == all[i]);
        }
        lemma_first_link_error(cx, front, at);
    } else {
        lemma_links_error(cx, front);
        assert forall|i: int| 0 <= i < front.len() implies link_error(cx, #[trigger] front[i]) is None by {
            assert(front[i] == all[i]);
        }
    }
}

/// The arguments for dependencies can be had exactly where the files of all libraries that the target
/// is linked to are known.
pub proof fn law_links_need_files(cx: Context, pkg: int, target: int, kind: Kind)
    requires
        cx.has_target(pkg, target),
    ensures
        deps_args(cx, pkg, target, kind) is Ok <==> all_files_known(cx, pkg, target),
{
    let all = links(cx, pkg, target);
    let count = cx.ws.packages@[pkg].targets@.len() as int;
    let near = dep_links(cx, pkg);
    let own = local_links(cx, pkg, count);
    let deps = cx.data.packages@[pkg].dep_targets@;
    lemma_bounds(cx, pkg);
    lemma_links_error(cx, all);
    lemma_local_links(cx, pkg, count);
    if deps_args(cx, pkg, target, kind) is Ok {
        assert forall|at: int| 0 <= at < deps.len() implies {
            let named = #[trigger] deps[at];
            cx.data.packages@[named.0 as int].targets@[named.1 as int].filenames is Ok
        } by {
            assert(all[at] == near[at]);
            assert(link_error(cx, all[at]) is None);
        }
        if cx.ws.packages@[pkg].targets@[target].bin {
            assert forall|at: int|
                0 <= at < cx.ws.packages@[pkg].targets@.len() && (
                #[trigger] cx.ws.packages@[pkg].targets@[at]).lib
                    && cx.ws.packages@[pkg].targets@[at].profile.compile
                    && !cx.ws.packages@[pkg].targets@[at].staticlib implies cx.data.packages@[pkg].targets@[at].filenames is Ok by {
                assert(own.contains(own_link(pkg, at)));
                let k = choose|k: int| 0 <= k < own.len() && own[k] == own_link(pkg, at);
                assert(all[near.len() + k] == own[k]);
                assert(link_error(cx, all[near.len() + k]) is None);
            }
        }
    }
    if all_files_known(cx, pkg, target) {
        assert forall|i: int| 0 <= i < all.len() implies link_error(cx, #[trigger] all[i]) is None by {
            if i < near.len() {
                assert(all[i] == near[i]);
                let named = deps[i];
            } else {
                let link = own[i - near.len()];
                assert(all[i] == link);
                assert(cx.ws.packages@[pkg].targets@[link.target as int].lib);
            }
        }
    }
}

/// Where the files of a library of a dependency are not known, the first such library tells why the
/// arguments cannot be had.
pub proof fn law_first_unknown_dependency(
    cx: Context,
    pkg: int,
    target: int,
    kind: Kind,
    at: int,
    why: ErrorView,
)
    requires
        0 <= at < cx.data.packages@[pkg].dep_targets@.len(),
        ({
            let named = cx.data.packages@[pkg].dep_targets@[at];
            let files = cx.data.packages@[named.0 as int].targets@[named.1 as int].filenames;
            files is Err && files->Err_0@ == why
        }),
        forall|i: int|
            0 <= i < at ==> {
                let named = #[trigger] cx.data.packages@[pkg].dep_targets@[i];
                cx.data.packages@[named.0 as int].targets@[named.1 as int].filenames is Ok
            },
    ensures
        deps_args(cx, pkg, target, kind) == Err::<Seq<Seq<u8>>, ErrorView>(why),
{
    let all = links(cx, pkg, target);
    let near = dep_links(cx, pkg);
    assert(all[at] == near[at]);
    assert forall|i: int| 0 <= i < at implies link_error(cx, #[trigger] all[i]) is None by {
        assert(all[i] == near[i]);
        let named = cx.data.packages@[pkg].dep_targets@[i];
    }
    lemma_first_link_error(cx, all, at);
}

/// Two programs of a package are linked to the same, and so are two of its targets that are no
/// programs.
pub proof fn law_links_depend_on_programs_only(
    cx: Context,
    pkg: int,
    one: int,
    other: int,
    kind: Kind,
)
    requires
        cx.ws.packages@[pkg].targets@[one].bin == cx.ws.packages@[pkg].targets@[other].bin,
    ensures
        deps_args(cx, pkg, one, kind) == deps_args(cx, pkg, other, kind),
{
}

/// Where each file of a library is, in the order of the files.
pub open spec fn files_told(
    cx: Context,
    kind: Kind,
    pkg: int,
    target: int,
    among_dependencies: bool,
) -> Seq<Seq<u8>> {
    let linked = cx.ws.packages@[pkg].targets@[target];
    let files = cx.data.packages@[pkg].targets@[target].filenames->Ok_0@;
    let layout = if kind == Kind::KindPlugin || linked.profile.plugin {
        cx.layout_of(Kind::KindPlugin)
    } else {
        cx.layout_of(Kind::KindTarget)
    };
    let dir = if among_dependencies {
        layout.deps@
    } else {
        layout.root@
    };
    Seq::new(files.len(), |file: int| file_location(linked.name@, dir, files[file]@))
}

proof fn lemma_files_told(cx: Context, kind: Kind, link: Link)
    ensures
        places(cx, kind, link) == files_told(
            cx,
            kind,
            link.pkg as int,
            link.target as int,
            link.reason == LinkReason::Dependency,
        ),
{
    let told = files_told(
        cx,
        kind,
        link.pkg as int,
        link.target as int,
        link.reason == LinkReason::Dependency,
    );
    assert forall|file: int| 0 <= file < told.len() implies places(cx, kind, link)[file]
        == #[trigger] told[file] by {
        assert(places(cx, kind, link)[file] =~= told[file]);
    }
    assert(places(cx, kind, link) =~= told);
}

proof fn lemma_links_in_order(cx: Context, kind: Kind, all: Seq<Link>, at: int)
    requires
        0 <= at < all.len(),
    ensures
        values(links_args(cx, kind, all.take(at + 1)), utf8("--extern"@)) == values(
            links_args(cx, kind, all.take(at)),
            utf8("--extern"@),
        ) + places(cx, kind, all[at]),
{
    let flag = utf8("--extern"@);
    let front = all.take(at);
    assert(all.take(at + 1).drop_last() =~= front);
    lemma_links_as_read(cx, kind, front);
    lemma_read_flagged(flag, places(cx, kind, all[at]));
    lemma_read_add(links_args(cx, kind, front), link_args(cx, kind, all[at]));
}

/// The files of the first `count` libraries of dependencies that a package is linked to, each library
/// with all its files.
pub open spec fn dependencies_told(cx: Context, kind: Kind, pkg: int, count: int) -> Seq<Seq<u8>>
    decreases count,
{
    if count <= 0 {
        Seq::empty()
    } else {
        let named = cx.data.packages@[pkg].dep_targets@[count - 1];
        dependencies_told(cx, kind, pkg, count - 1) + files_told(
            cx,
            kind,
            named.0 as int,
            named.1 as int,
            true,
        )
    }
}

/// The files of those of the first `count` targets of a package that are compiled libraries and not
/// static.
pub open spec fn own_libraries_told(cx: Context, kind: Kind, pkg: int, count: int) -> Seq<Seq<u8>>
    decreases count,
{
    if count <= 0 {
        Seq::empty()
    } else {
        let linked = cx.ws.packages@[pkg].targets@[count - 1];
        own_libraries_told(cx, kind, pkg, count - 1) + if linked.lib && linked.profile.compile
            && !linked.staticlib {
            files_told(cx, kind, pkg, count - 1, false)
        } else {
            Seq::empty()
        }
    }
}

proof fn lemma_dependencies_told(cx: Context, kind: Kind, pkg: int, all: Seq<Link>, count: int)
    requires
        0 <= count <= dep_links(cx, pkg).len(),
        dep_links(cx, pkg).is_prefix_of(all),
    ensures
        values(links_args(cx, kind, all.take(count)), utf8("--extern"@)) == dependencies_told(
            cx,
            kind,
            pkg,
            count,
        ),
    decreases count,
{
    if count == 0 {
        lemma_read_nothing(links_args(cx, kind, all.take(0)));
    } else {
        lemma_dependencies_told(cx, kind, pkg, all, count - 1);
        lemma_links_in_order(cx, kind, all, count - 1);
        assert(all[count - 1] == dep_links(cx, pkg)[count - 1]);
        lemma_files_told(cx, kind, all[count - 1]);
    }
}

proof fn lemma_own_libraries_told(
    cx: Context,
    kind: Kind,
    pkg: int,
    near: Seq<Link>,
    count: int,
)
    requires
        0 <= pkg <= usize::MAX,
        0 <= count <= usize::MAX,
    ensures
        values(
            links_args(cx, kind, near + local_links(cx, pkg, count)),
            utf8("--extern"@),
        ) == values(links_args(cx, kind, near), utf8("--extern"@)) + own_libraries_told(
            cx,
            kind,
            pkg,
            count,
        ),
    decreases count,
{
    let before = values(links_args(cx, kind, near), utf8("--extern"@));
    if count == 0 {
        assert(near + local_links(cx, pkg, 0) =~= near);
        assert(before + own_libraries_told(cx, kind, pkg, 0) =~= before);
    } else {
        lemma_own_libraries_told(cx, kind, pkg, near, count - 1);
        let fewer = near + local_links(cx, pkg, count - 1);
        let all = near + local_links(cx, pkg, count);
        let linked = cx.ws.packages@[pkg].targets@[count - 1];
        let front = own_libraries_told(cx, kind, pkg, count - 1);
        if linked.lib && linked.profile.compile && !linked.staticlib {
            let at = fewer.len() as int;
            assert(all.take(at) =~= fewer);
            assert(all.take(at + 1) =~= all);
            lemma_links_in_order(cx, kind, all, at);
            lemma_files_told(cx, kind, all[at]);
            let own = files_told(cx, kind, pkg, count - 1, false);
            assert((before + front) + own =~= before + (front + own));
        } else {
            assert(front + Seq::empty() =~= front);
        }
    }
}

/// The compiler is told of all files of the libraries of dependencies that the package is linked to,
/// in order, and then, for a program, of all files of the compiled libraries of its own package that
/// are not static, in order.
pub proof fn law_files_in_order(cx: Context, pkg: int, target: int, kind: Kind)
    requires
        cx.has_target(pkg, target),
        deps_args(cx, pkg, target, kind) is Ok,
    ensures
        ({
            let named = values(deps_args(cx, pkg, target, kind)->Ok_0, utf8("--extern"@));
            let deps = dependencies_told(
                cx,
                kind,
                pkg,
                cx.data.packages@[pkg].dep_targets@.len() as int,
            );
            let own = own_libraries_told(
                cx,
                kind,
                pkg,
                cx.ws.packages@[pkg].targets@.len() as int,
            );
            &&& cx.ws.packages@[pkg].targets@[target].bin ==> named == deps + own
            &&& !cx.ws.packages@[pkg].targets@[target].bin ==> named == deps
        }),
{
    let near = dep_links(cx, pkg);
    let all = links(cx, pkg, target);
    lemma_bounds(cx, pkg);
    lemma_deps_as_read(cx, pkg, target, kind);
    lemma_dependencies_told(cx, kind, pkg, near, near.len() as int);
    assert(near.take(near.len() as int) =~= near);
    if cx.ws.packages@[pkg].targets@[target].bin {
        lemma_own_libraries_told(
            cx,
            kind,
            pkg,
            near,
            cx.ws.packages@[pkg].targets@.len() as int,
        );
    } else {
        assert(all =~= near);
    }
}

proof fn lemma_local_links_place(cx: Context, pkg: int, at: int, count: int)
    requires
        0 <= pkg <= usize::MAX,
        0 <= at < count <= usize::MAX,
        cx.ws.packages@[pkg].targets@[at].lib && cx.ws.packages@[pkg].targets@[at].profile.compile
            && !cx.ws.packages@[pkg].targets@[at].staticlib,
    ensures
        local_links(cx, pkg, at).len() < local_links(cx, pkg, count).len(),
        local_links(cx, pkg, at).is_prefix_of(local_links(cx, pkg, count)),
        local_links(cx, pkg, count)[local_links(cx, pkg, at).len() as int] == own_link(pkg, at),
    decreases count,
{
    if at < count - 1 {
        lemma_local_links_place(cx, pkg, at, count - 1);
    }
}

/// Where the files of all libraries of dependencies are known, but not those of a library of its own
/// package that a program is linked to, the first such library tells why the arguments cannot be had.
pub proof fn law_first_unknown_own_library(
    cx: Context,
    pkg: int,
    target: int,
    kind: Kind,
    at: int,
    why: ErrorView,
)
    requires
        cx.has_target(pkg, target),
        cx.ws.packages@[pkg].targets@[target].bin,
        0 <= at < cx.ws.packages@[pkg].targets@.len(),
        cx.ws.packages@[pkg].targets@[at].lib && cx.ws.packages@[pkg].targets@[at].profile.compile
            && !cx.ws.packages@[pkg].targets@[at].staticlib,
        cx.data.packages@[pkg].targets@[at].filenames is Err,
        cx.data.packages@[pkg].targets@[at].filenames->Err_0@ == why,
        forall|i: int|
            0 <= i < cx.data.packages@[pkg].dep_targets@.len() ==> {
                let named = #[trigger] cx.data.packages@[pkg].dep_targets@[i];
                cx.data.packages@[named.0 as int].targets@[named.1 as int].filenames is Ok
            },
        forall|i: int|
            0 <= i < at && (#[trigger] cx.ws.packages@[pkg].targets@[i]).lib
                && cx.ws.packages@[pkg].targets@[i].profile.compile
                && !cx.ws.packages@[pkg].targets@[i].staticlib
                ==> cx.data.packages@[pkg].targets@[i].filenames is Ok,
    ensures
        deps_args(cx, pkg, target, kind) == Err::<Seq<Seq<u8>>, ErrorView>(why),
{
    let all = links(cx, pkg, target);
    let near = dep_links(cx, pkg);
    let count = cx.ws.packages@[pkg].targets@.len() as int;
    let own = local_links(cx, pkg, count);
    lemma_bounds(cx, pkg);
    lemma_local_links_place(cx, pkg, at, count);
    lemma_local_links(cx, pkg, at);
    let before = local_links(cx, pkg, at);
    let place = (near.len() + before.len()) as int;
    assert(all[place] == own[before.len() as int]);
    assert forall|i: int| 0 <= i < place implies link_error(cx, #[trigger] all[i]) is None by {
        if i < near.len() {
            assert(all[i] == near[i]);
            let named = cx.data.packages@[pkg].dep_targets@[i];
        } else {
            let link = before[i - near.len()];
            assert(all[i] == link);
            assert(cx.ws.packages@[pkg].targets@[link.target as int].lib);
        }
    }
    lemma_first_link_error(cx, all, place);
}

/// The directories with what build commands made are searched in the order in which the packages are
/// first met when the package and all it depends on are visited; each package with build commands adds
/// its directory, and no other one does.
pub proof fn law_native_directories_in_order(
    cx: Context,
    pkg: usize,
    target: int,
    kind: Kind,
    met: Seq<usize>,
    next: usize,
)
    requires
        deps_args(cx, pkg as int, target, kind) is Ok,
    ensures
        ({
            let layout = cx.layout_of(kind);
            let dirs = values(deps_args(cx, pkg as int, target, kind)->Ok_0, utf8("-L"@));
            dirs.skip(2) == native_dirs(cx, layout, visit(cx.ws.resolve, pkg, Set::empty()))
        }),
        native_dirs(cx, cx.layout_of(kind), Seq::empty()).len() == 0,
        cx.ws.packages@[next as int].build@.len() > 0 ==> native_dirs(
            cx,
            cx.layout_of(kind),
            met.push(next),
        ) == native_dirs(cx, cx.layout_of(kind), met).push(
            cx.layout_of(kind).native@[next as int]@,
        ),
        cx.ws.packages@[next as int].build@.len() == 0 ==> native_dirs(
            cx,
            cx.layout_of(kind),
            met.push(next),
        ) == native_dirs(cx, cx.layout_of(kind), met),
{
    let layout = cx.layout_of(kind);
    lemma_deps_as_read(cx, pkg as int, target, kind);
    let dirs = values(deps_args(cx, pkg as int, target, kind)->Ok_0, utf8("-L"@));
    let native = native_dirs(cx, layout, visit(cx.ws.resolve, pkg, Set::empty()));
    assert(dirs.skip(2) =~= native);
    assert(met.push(next).drop_last() =~= met);
}

} // verus!
