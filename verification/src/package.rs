//! Packages, their targets, and how they depend on each other.

use crate::path::Path;
use vstd::prelude::*;

verus! {

/// How a target is built.
#[derive(Debug, PartialEq, Eq)]
pub struct Profile {
    /// What the target is built for, such as `compile`, `test` or `release`.
    pub env: String,
    /// The level of optimisation.
    pub opt_level: usize,
    /// Whether debug information is kept.
    pub debug: bool,
    /// Whether the target is built as a test.
    pub test: bool,
    /// Whether a test uses the test harness.
    pub harness: bool,
    /// Whether the target is documented instead of compiled.
    pub doc: bool,
    /// Whether the target is built by a plain compilation.
    pub compile: bool,
    /// Whether the target is loaded by the compiler.
    pub plugin: bool,
    /// The directory below the target directory that the results go to.
    pub dest: Option<String>,
}

/// What tells the results of a target from those of others of the same name.
#[derive(Debug, PartialEq, Eq)]
pub struct Metadata {
    pub metadata: String,
    pub extra_filename: String,
}

/// A part of a package that is built on its own.
#[derive(Debug, PartialEq, Eq)]
pub struct Target {
    pub name: String,
    /// The root source file.
    pub src_path: Path,
    pub metadata: Option<Metadata>,
    pub profile: Profile,
    /// The kinds of crate that the compiler is asked for.
    pub crate_types: Vec<String>,
    /// Whether the target is a library.
    pub lib: bool,
    /// Whether the target is a program.
    pub bin: bool,
    /// Whether the target is a static library.
    pub staticlib: bool,
}

/// A package.
#[derive(Debug, PartialEq, Eq)]
pub struct Package {
    pub name: String,
    /// The package as it is shown to the user.
    pub display: String,
    /// The directory that holds the package.
    pub root: Path,
    /// The directory that the results of a build go to.
    pub target_dir: Path,
    /// The commands that are run before the targets are built.
    pub build: Vec<String>,
    pub targets: Vec<Target>,
}

/// Which packages each package depends on. A package is known by its place in the workspace.
#[derive(Debug, PartialEq, Eq)]
pub struct Resolve {
    /// The package that everything is built for.
    pub root: usize,
    /// The direct dependencies of each package, as far as they are known.
    pub deps: Vec<Option<Vec<usize>>>,
}

impl Resolve {
    /// The direct dependencies of a package.
    pub open spec fn deps_of(self, pkg: usize) -> Seq<usize> {
        match self.deps@[pkg as int] {
            Some(deps) => deps@,
            None => Seq::empty(),
        }
    }

    /// The root and all dependencies are among `count` packages.
    pub open spec fn within(self, count: nat) -> bool {
        &&& self.root < count
        &&& self.deps@.len() == count
        &&& forall|i: usize, j: int|
            0 <= i < count && 0 <= j < self.deps_of(i).len() ==> #[trigger] self.deps_of(i)[j] < count
    }

    /// Whether the root and all dependencies are among `count` packages.
    pub fn is_within(&self, count: usize) -> (yes: bool)
        ensures
            yes == self.within(count as nat),
    {
        if self.root >= count || self.deps.len() != count {
            return false;
        }
        for i in 0..count
            invariant
                self.deps@.len() == count,
                forall|k: usize, j: int|
                    0 <= k < i && 0 <= j < self.deps_of(k).len() ==> #[trigger] self.deps_of(k)[j]
                        < count,
        {
            if let Some(deps) = &self.deps[i] {
                for j in 0..deps.len()
                    invariant
                        i < count,
                        self.deps@.len() == count,
                        deps@ == self.deps_of(i),
                        forall|k: int| 0 <= k < j ==> #[trigger] deps@[k] < count,
                {
                    if deps[j] >= count {
                        assert(self.deps_of(i)[j as int] >= count);
                        return false;
                    }
                }
            }
        }
        true
    }
}

/// The parts of the user's configuration that a build reads.
#[derive(Debug, PartialEq, Eq)]
pub struct Config {
    /// The platform to build for, if it is not the host.
    pub target: Option<String>,
    /// The archiver.
    pub ar: Option<String>,
    /// The linker.
    pub linker: Option<String>,
}

/// What is built: the packages, how they hang together, and what for.
#[derive(Debug, PartialEq, Eq)]
pub struct Workspace {
    /// What is built for; it is looked up among the profiles of the root package.
    pub env: String,
    pub packages: Vec<Package>,
    pub resolve: Resolve,
    pub config: Config,
}

impl Workspace {
    /// All packages that are referred to are there.
    pub open spec fn wf(self) -> bool {
        self.resolve.within(self.packages@.len())
    }

    /// The package that everything is built for.
    pub open spec fn root(self) -> Package {
        self.packages@[self.resolve.root as int]
    }

    /// Whether all packages that are referred to are there.
    pub fn check(&self) -> (yes: bool)
        ensures
            yes == self.wf(),
    {
        self.resolve.is_within(self.packages.len())
    }
}

/// A workspace is whole exactly if the root package and all known dependencies are packages of it, and
/// it is noted for each package what it depends on.
pub proof fn law_whole_workspaces(ws: Workspace)
    ensures
        ws.wf() <==> {
            let count = ws.packages@.len();
            &&& ws.resolve.root < count
            &&& ws.resolve.deps@.len() == count
            &&& forall|i: int, j: int|
                0 <= i < count && ws.resolve.deps@[i] is Some && 0 <= j
                    < ws.resolve.deps@[i]->0@.len() ==> #[trigger] ws.resolve.deps@[i]->0@[j] < count
        },
        forall|pkg: usize| #[trigger]
            ws.resolve.deps_of(pkg) == (if ws.resolve.deps@[pkg as int] is Some {
                ws.resolve.deps@[pkg as int]->0@
            } else {
                Seq::empty()
            }),
        ws.root() == ws.packages@[ws.resolve.root as int],
{
    let count = ws.packages@.len();
    assert(ws.packages.len() == ws.packages@.len());
    if ws.wf() {
        assert forall|i: int, j: int|
            0 <= i < count && ws.resolve.deps@[i] is Some && 0 <= j
                < ws.resolve.deps@[i]->0@.len() implies #[trigger] ws.resolve.deps@[i]->0@[j]
            < count by {
            let pkg = i as usize;
            assert(ws.resolve.deps_of(pkg)[j] < count);
        }
    }
    if ws.resolve.root < count && ws.resolve.deps@.len() == count && forall|i: int, j: int|
        0 <= i < count && ws.resolve.deps@[i] is Some && 0 <= j < ws.resolve.deps@[i]->0@.len()
            ==> #[trigger] ws.resolve.deps@[i]->0@[j] < count {
        assert forall|i: usize, j: int|
            0 <= i < count && 0 <= j < ws.resolve.deps_of(i).len() implies #[trigger] ws.resolve.deps_of(
            i,
        )[j] < count by {
            assert(ws.resolve.deps@[i as int]->0@[j] < count);
        }
    }
}

} // verus!
