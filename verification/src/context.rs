//! What a build knows about its surroundings.

use crate::error::CargoError;
use crate::package::{Package, Target, Workspace};
use crate::path::{joinable, Path, LIST_SEPARATOR};
use vstd::prelude::*;

verus! {

/// What the results of a compilation are for.
#[derive(Debug, Clone, Copy, PartialEq, Eq, Structural)]
pub enum Kind {
    /// To be loaded by the compiler, on the host.
    KindPlugin,
    /// To be run on the target platform.
    KindTarget,
}

/// The platforms that a target is needed on.
#[derive(Debug, Clone, Copy, PartialEq, Eq, Structural)]
pub enum PlatformRequirement {
    Target,
    Plugin,
    PluginAndTarget,
}

/// The directories that results go to.
#[derive(Debug, PartialEq, Eq)]
pub struct Layout {
    /// Where the results of the packages at hand go.
    pub root: Path,
    /// Where the results of the whole build go.
    pub dest: Path,
    /// Where the results of dependencies go.
    pub deps: Path,
    /// Where the build commands of each package put their results.
    pub native: Vec<Path>,
    /// Where those results were put aside, for each package.
    pub old_native: Vec<Path>,
}

/// The directories while the dependencies are built, and while the package at hand is.
#[derive(Debug, PartialEq, Eq)]
pub struct Layouts {
    pub dependencies: Layout,
    pub primary: Layout,
}

/// What is known of a target.
#[derive(Debug, PartialEq, Eq)]
pub struct TargetData {
    /// Whether the target is built where its package is a dependency.
    pub relevant: bool,
    /// The platforms that the target is needed on.
    pub requirement: PlatformRequirement,
    /// The names of the files that building the target leads to.
    pub filenames: Result<Vec<String>, CargoError>,
    /// Where the compiler lists what a plugin was made from.
    pub plugin_dep_info: Path,
    /// Where the compiler lists what the target was made from.
    pub target_dep_info: Path,
}

/// What is known of a package.
#[derive(Debug, PartialEq, Eq)]
pub struct PackageData {
    /// The targets of its direct dependencies that it is linked to, each by its package and by its
    /// place in it.
    pub dep_targets: Vec<(usize, usize)>,
    /// The environment that processes run in on behalf of the package.
    pub process_env: Vec<(String, Option<Vec<u8>>)>,
    /// The directory that processes run in on behalf of the package.
    pub process_cwd: Path,
    pub targets: Vec<TargetData>,
}

/// What a build knows about its surroundings once it is prepared.
#[derive(Debug, PartialEq, Eq)]
pub struct ContextData {
    /// The platform that is built for.
    pub target_triple: String,
    /// The variable that holds the search path for dynamic libraries.
    pub dylib_envvar: String,
    /// The search path for dynamic libraries.
    pub search_path: Vec<Path>,
    pub plugin_layouts: Layouts,
    pub target_layouts: Layouts,
    /// What is known of each package.
    pub packages: Vec<PackageData>,
}

impl Layout {
    /// There is a directory for each of `count` packages.
    pub open spec fn covers(self, count: nat) -> bool {
        self.native@.len() == count && self.old_native@.len() == count
    }
}

impl Layouts {
    /// There is a directory for each of `count` packages.
    pub open spec fn covers(self, count: nat) -> bool {
        self.dependencies.covers(count) && self.primary.covers(count)
    }

    fn do_cover(&self, count: usize) -> (yes: bool)
        ensures
            yes == self.covers(count as nat),
    {
        self.dependencies.native.len() == count && self.dependencies.old_native.len() == count
            && self.primary.native.len() == count && self.primary.old_native.len() == count
    }
}

impl ContextData {
    /// A target of `ws`, given by its package and by its place in it.
    pub open spec fn names_target(ws: Workspace, named: (usize, usize)) -> bool {
        &&& named.0 < ws.packages@.len()
        &&& named.1 < ws.packages@[named.0 as int].targets@.len()
    }

    /// What is known of a package fits that package.
    pub open spec fn package_fits(self, ws: Workspace, pkg: int) -> bool {
        &&& self.packages@[pkg].targets@.len() == ws.packages@[pkg].targets@.len()
        &&& forall|j: int|
            0 <= j < self.packages@[pkg].dep_targets@.len() ==> Self::names_target(
                ws,
                #[trigger] self.packages@[pkg].dep_targets@[j],
            )
    }

    /// All that is known is about `ws`, and the directories in which dynamic libraries are looked
    /// for can be joined into a search path.
    pub open spec fn fits(self, ws: Workspace) -> bool {
        &&& self.packages@.len() == ws.packages@.len()
        &&& forall|i: int| 0 <= i < self.packages@.len() ==> #[trigger] self.package_fits(ws, i)
        &&& self.plugin_layouts.covers(ws.packages@.len())
        &&& self.target_layouts.covers(ws.packages@.len())
        &&& joinable(self.search_path@)
        &&& !self.plugin_layouts.dependencies.deps@.contains(LIST_SEPARATOR)
        &&& !self.plugin_layouts.primary.deps@.contains(LIST_SEPARATOR)
    }

    /// Whether all that is known is about `ws`, and the directories in which dynamic libraries are
    /// looked for can be joined into a search path.
    pub fn check(&self, ws: &Workspace) -> (yes: bool)
        ensures
            yes == self.fits(*ws),
    {
        let count = ws.packages.len();
        if self.packages.len() != count || !self.plugin_layouts.do_cover(count)
            || !self.target_layouts.do_cover(count) {
            return false;
        }
        for i in 0..count
            invariant
                count == ws.packages@.len(),
                self.packages@.len() == count,
                forall|k: int| 0 <= k < i ==> #[trigger] self.package_fits(*ws, k),
        {
            let data = &self.packages[i];
            if data.targets.len() != ws.packages[i].targets.len() {
                assert(!self.package_fits(*ws, i as int));
                return false;
            }
            for j in 0..data.dep_targets.len()
                invariant
                    i < self.packages@.len(),
                    *data == self.packages@[i as int],
                    forall|k: int|
                        0 <= k < j ==> Self::names_target(*ws, #[trigger] data.dep_targets@[k]),
            {
                let named = data.dep_targets[j];
                if named.0 >= ws.packages.len() || named.1 >= ws.packages[named.0].targets.len() {
                    assert(!Self::names_target(*ws, self.packages@[i as int].dep_targets@[j as int]));
                    assert(!self.package_fits(*ws, i as int));
                    return false;
                }
            }
        }
        for i in 0..self.search_path.len()
            invariant
                forall|k: int|
                    0 <= k < i ==> !(#[trigger] self.search_path@[k])@.contains(LIST_SEPARATOR),
        {
            if holds_list_separator(&self.search_path[i]) {
                return false;
            }
        }
        !holds_list_separator(&self.plugin_layouts.dependencies.deps) && !holds_list_separator(
            &self.plugin_layouts.primary.deps,
        )
    }
}

/// Whether `path` holds the separator of a search path.
fn holds_list_separator(path: &Path) -> (yes: bool)
    ensures
        yes == path@.contains(LIST_SEPARATOR),
{
    for i in 0..path.repr.len()
        invariant
            forall|k: int| 0 <= k < i ==> path@[k] != LIST_SEPARATOR,
    {
        if path.repr[i] == LIST_SEPARATOR {
            assert(path@[i as int] == LIST_SEPARATOR);
            return true;
        }
    }
    false
}

/// A build under way.
#[derive(Clone, Copy)]
pub struct Context<'a> {
    pub ws: &'a Workspace,
    pub data: &'a ContextData,
    /// Whether the package at hand is the one that was asked for, not a dependency.
    pub primary: bool,
}

impl<'a> Context<'a> {
    /// The workspace is whole and what is known is about it.
    pub open spec fn wf(self) -> bool {
        self.ws.wf() && self.data.fits(*self.ws)
    }

    /// A package of the workspace.
    pub open spec fn has_package(self, pkg: int) -> bool {
        0 <= pkg < self.ws.packages@.len()
    }

    /// A target of the workspace.
    pub open spec fn has_target(self, pkg: int, target: int) -> bool {
        self.has_package(pkg) && 0 <= target < self.ws.packages@[pkg].targets@.len()
    }

    /// A package of the workspace.
    pub open spec fn package(self, pkg: int) -> Package {
        self.ws.packages@[pkg]
    }

    /// A target of a package.
    pub open spec fn target(self, pkg: int, target: int) -> Target {
        self.ws.packages@[pkg].targets@[target]
    }

    /// What is known of a target of a package.
    pub open spec fn target_data(self, pkg: int, target: int) -> TargetData {
        self.data.packages@[pkg].targets@[target]
    }

    /// The directories that results of a kind go to.
    pub open spec fn layout_of(self, kind: Kind) -> Layout {
        match (kind, self.primary) {
            (Kind::KindPlugin, false) => self.data.plugin_layouts.dependencies,
            (Kind::KindPlugin, true) => self.data.plugin_layouts.primary,
            (Kind::KindTarget, false) => self.data.target_layouts.dependencies,
            (Kind::KindTarget, true) => self.data.target_layouts.primary,
        }
    }

    /// The directories that results of a kind go to.
    pub fn layout(&self, kind: Kind) -> (layout: &'a Layout)
        ensures
            *layout == self.layout_of(kind),
    {
        match (kind, self.primary) {
            (Kind::KindPlugin, false) => &self.data.plugin_layouts.dependencies,
            (Kind::KindPlugin, true) => &self.data.plugin_layouts.primary,
            (Kind::KindTarget, false) => &self.data.target_layouts.dependencies,
            (Kind::KindTarget, true) => &self.data.target_layouts.primary,
        }
    }
}

/// Plugins go to the layouts for plugins and all else to those for the target, and within them the
/// package that was asked for has directories of its own.
pub proof fn law_layouts(cx: Context)
    ensures
        cx.primary ==> cx.layout_of(Kind::KindPlugin) == cx.data.plugin_layouts.primary
            && cx.layout_of(Kind::KindTarget) == cx.data.target_layouts.primary,
        !cx.primary ==> cx.layout_of(Kind::KindPlugin) == cx.data.plugin_layouts.dependencies
            && cx.layout_of(Kind::KindTarget) == cx.data.target_layouts.dependencies,
{
}

/// What is known fits a workspace exactly if it is about as many packages and targets, if all targets
/// that packages are linked to are there, if there is a directory for each package, and if the
/// directories for dynamic libraries can be joined into a search path.
pub proof fn law_knowledge_that_fits(data: ContextData, ws: Workspace)
    ensures
        data.fits(ws) <==> {
            let count = ws.packages@.len();
            &&& data.packages@.len() == count
            &&& forall|i: int|
                0 <= i < count ==> (#[trigger] data.packages@[i]).targets@.len()
                    == ws.packages@[i].targets@.len()
            &&& forall|i: int, j: int|
                0 <= i < count && 0 <= j < data.packages@[i].dep_targets@.len() ==> {
                    let named = #[trigger] data.packages@[i].dep_targets@[j];
                    named.0 < count && named.1 < ws.packages@[named.0 as int].targets@.len()
                }
            &&& data.plugin_layouts.dependencies.native@.len() == count
            &&& data.plugin_layouts.dependencies.old_native@.len() == count
            &&& data.plugin_layouts.primary.native@.len() == count
            &&& data.plugin_layouts.primary.old_native@.len() == count
            &&& data.target_layouts.dependencies.native@.len() == count
            &&& data.target_layouts.dependencies.old_native@.len() == count
            &&& data.target_layouts.primary.native@.len() == count
            &&& data.target_layouts.primary.old_native@.len() == count
            &&& forall|i: int|
                0 <= i < data.search_path@.len() ==> !(
                #[trigger] data.search_path@[i]).repr@.contains(58)
            &&& !data.plugin_layouts.dependencies.deps.repr@.contains(58)
            &&& !data.plugin_layouts.primary.deps.repr@.contains(58)
        },
{
    let count = ws.packages@.len();
    if data.fits(ws) {
        assert forall|i: int| 0 <= i < count implies (#[trigger] data.packages@[i]).targets@.len()
            == ws.packages@[i].targets@.len() by {
            assert(data.package_fits(ws, i));
        }
        assert forall|i: int, j: int|
            0 <= i < count && 0 <= j < data.packages@[i].dep_targets@.len() implies {
            let named = #[trigger] data.packages@[i].dep_targets@[j];
            named.0 < count && named.1 < ws.packages@[named.0 as int].targets@.len()
        } by {
            assert(data.package_fits(ws, i));
            assert(ContextData::names_target(ws, data.packages@[i].dep_targets@[j]));
        }
        assert forall|i: int| 0 <= i < data.search_path@.len() implies !(
        #[trigger] data.search_path@[i]).repr@.contains(58) by {
            assert(!data.search_path@[i]@.contains(LIST_SEPARATOR));
        }
    }
}

/// A build under way is valid exactly if its workspace is whole and what is known fits it.
pub proof fn law_valid_contexts(cx: Context, pkg: int, target: int)
    ensures
        cx.wf() <==> cx.ws.wf() && cx.data.fits(*cx.ws),
        cx.has_package(pkg) <==> 0 <= pkg < cx.ws.packages@.len(),
        cx.has_target(pkg, target) <==> 0 <= pkg < cx.ws.packages@.len() && 0 <= target
            < cx.ws.packages@[pkg].targets@.len(),
        cx.package(pkg) == cx.ws.packages@[pkg],
        cx.target(pkg, target) == cx.ws.packages@[pkg].targets@[target],
        cx.target_data(pkg, target) == cx.data.packages@[pkg].targets@[target],
{
}

} // verus!
