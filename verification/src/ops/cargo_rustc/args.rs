//! The processes that a build runs, and their arguments.

use crate::context::{Context, Kind};
use crate::package::Target;
use crate::path::{join_paths, Path, LIST_SEPARATOR};
use crate::process_builder::{copy_env, env_map, Command, ProcessBuilder};
use crate::split::{join_with, law_split_of_join, split_on};
use crate::text::{decimal, lemma_views_push, push_bytes, to_bytes, to_decimal, utf8, views};
use vstd::prelude::*;

verus! {

/// `flag` before each of `values`.
pub open spec fn flagged(flag: Seq<u8>, values: Seq<Seq<u8>>) -> Seq<Seq<u8>>
    decreases values.len(),
{
    if values.len() == 0 {
        Seq::empty()
    } else {
        flagged(flag, values.drop_last()) + seq![flag, values.last()]
    }
}

/// The search path for dynamic libraries that tools run with: what is searched anyway, then the
/// directory that holds the dependencies of plugins.
pub open spec fn tool_search_path(cx: Context) -> Seq<u8> {
    join_with(
        views(cx.data.search_path@).push(cx.layout_of(Kind::KindPlugin).deps@),
        LIST_SEPARATOR,
    )
}

/// A tool, run on behalf of a package.
pub open spec fn tool(cx: Context, program: Seq<u8>, pkg: int) -> Command {
    let data = cx.data.packages@[pkg];
    Command {
        program,
        args: Seq::empty(),
        env: env_map(data.process_env@),
        cwd: data.process_cwd@,
    }.with_env(cx.data.dylib_envvar@, tool_search_path(cx))
}

/// A process that runs a tool on behalf of a package: in the directory and the environment of the
/// package, and so that dynamic libraries that plugins depend on are found.
pub fn process(cmd: &[u8], pkg: usize, cx: &Context) -> (builder: ProcessBuilder)
    requires
        cx.wf(),
        cx.has_package(pkg as int),
    ensures
        builder@ == tool(*cx, cmd@, pkg as int),
{
    let mut search_path: Vec<Path> = Vec::new();
    let ghost all = cx.data.search_path@;
    assert(views(search_path@) =~= views(all).take(0));
    for i in 0..cx.data.search_path.len()
        invariant
            all == cx.data.search_path@,
            cx.wf(),
            views(search_path@) == views(all).take(i as int),
            forall|k: int|
                0 <= k < search_path@.len() ==> !(#[trigger] search_path@[k])@.contains(LIST_SEPARATOR),
    {
        broadcast use lemma_views_push;

        search_path.push(cx.data.search_path[i].clone());
        assert(views(all).take(i + 1) =~= views(all).take(i as int).push(all[i as int]@));
    }
    assert(views(all).take(all.len() as int) =~= views(all));
    let deps = cx.layout(Kind::KindPlugin).deps.clone();
    proof {
        lemma_views_push(search_path@, deps);
    }
    search_path.push(deps);
    let list = join_paths(&search_path);
    let data = &cx.data.packages[pkg];
    let mut program: Vec<u8> = Vec::new();
    push_bytes(&mut program, cmd);
    let args: Vec<Vec<u8>> = Vec::new();
    assert(views(args@) =~= Seq::empty());
    ProcessBuilder {
        program,
        args,
        env: copy_env(&data.process_env),
        cwd: data.process_cwd.clone(),
    }.env(cx.data.dylib_envvar.as_str(), list)
}

/// The level of optimisation and whether debug information is kept: as the last of `targets` has it
/// that is built for `env`, else as `own` says.
pub open spec fn settings(targets: Seq<Target>, env: Seq<char>, own: (usize, bool)) -> (usize, bool)
    decreases targets.len(),
{
    if targets.len() == 0 {
        own
    } else if targets.last().profile.env@ == env {
        (targets.last().profile.opt_level, targets.last().profile.debug)
    } else {
        settings(targets.drop_last(), env, own)
    }
}

/// The settings that a target is built with: those of the root package where it has any for the
/// environment of the target.
pub open spec fn target_settings(cx: Context, target: Target) -> (usize, bool) {
    settings(
        cx.ws.root().targets@,
        target.profile.env@,
        (target.profile.opt_level, target.profile.debug),
    )
}

/// The arguments for a level of optimisation.
pub open spec fn opt_level_args(opt_level: usize) -> Seq<Seq<u8>> {
    if opt_level != 0 {
        seq![utf8("--opt-level"@), decimal(opt_level as nat)]
    } else {
        Seq::empty()
    }
}

/// The arguments that say whether debug information is kept.
pub open spec fn debug_args(debug: bool) -> Seq<Seq<u8>> {
    if debug {
        seq![utf8("-g"@)]
    } else {
        seq![utf8("--cfg"@), utf8("ndebug"@)]
    }
}

/// The arguments that say whether a test harness is built.
pub open spec fn test_args(target: Target) -> Seq<Seq<u8>> {
    if target.profile.test && target.profile.harness {
        seq![utf8("--test"@)]
    } else {
        Seq::empty()
    }
}

/// The arguments for the metadata of a target.
pub open spec fn metadata_args(target: Target) -> Seq<Seq<u8>> {
    match target.metadata {
        Some(m) => seq![
            utf8("-C"@),
            utf8("metadata="@) + utf8(m.metadata@),
            utf8("-C"@),
            utf8("extra-filename="@) + utf8(m.extra_filename@),
        ],
        None => Seq::empty(),
    }
}

/// The encodings of `texts`.
pub open spec fn encoded(texts: Seq<String>) -> Seq<Seq<u8>> {
    texts.map_values(|text: String| utf8(text@))
}

/// The arguments that the compiler gets for a target, whatever the kind of the results.
pub open spec fn base_args(cx: Context, target: Target, crate_types: Seq<String>) -> Seq<Seq<u8>> {
    let (opt_level, debug) = target_settings(cx, target);
    seq![target.src_path@, utf8("--crate-name"@), utf8(target.name@)] + flagged(
        utf8("--crate-type"@),
        encoded(crate_types),
    ) + opt_level_args(opt_level) + debug_args(debug) + test_args(target) + metadata_args(target)
}

/// Two byte strings, one behind the other.
fn concat(a: &str, b: &str) -> (whole: Vec<u8>)
    ensures
        whole@ == utf8(a@) + utf8(b@),
{
    let mut whole = to_bytes(a);
    push_bytes(&mut whole, b.as_bytes());
    whole
}

/// Adds `flag` and then `value`.
pub(crate) fn with_flag(cmd: ProcessBuilder, flag: &str, value: &[u8]) -> (out: ProcessBuilder)
    ensures
        out@ == cmd@.with_args(seq![utf8(flag@), value@]),
{
    let out = cmd.arg_str(flag).arg(value);
    assert(out@ =~= cmd@.with_args(seq![utf8(flag@), value@]));
    out
}

/// The settings that a target is built with.
fn effective_settings(cx: &Context, target: &Target) -> (found: (usize, bool))
    requires
        cx.wf(),
    ensures
        found == target_settings(*cx, *target),
{
    let mut found = (target.profile.opt_level, target.profile.debug);
    let root = &cx.ws.packages[cx.ws.resolve.root];
    let ghost own = found;
    let ghost all = root.targets@;
    for i in 0..root.targets.len()
        invariant
            all == root.targets@,
            found == settings(all.take(i as int), target.profile.env@, own),
    {
        let profile = &root.targets[i].profile;
        if profile.env == target.profile.env {
            found = (profile.opt_level, profile.debug);
        }
        assert(all.take(i + 1).drop_last() =~= all.take(i as int));
    }
    assert(all.take(all.len() as int) =~= all);
    found
}

/// Adds the arguments that the compiler gets for a target, whatever the kind of the results.
pub fn build_base_args(
    cx: &Context,
    cmd: ProcessBuilder,
    target: &Target,
    crate_types: &Vec<String>,
) -> (out: ProcessBuilder)
    requires
        cx.wf(),
    ensures
        out@ == cmd@.with_args(base_args(*cx, *target, crate_types@)),
{
    let ghost given = cmd@;
    let mut cmd = cmd.arg(target.src_path.repr.as_slice());
    cmd = with_flag(cmd, "--crate-name", target.name.as_str().as_bytes());
    let ghost mut args = seq![target.src_path@, utf8("--crate-name"@), utf8(target.name@)];
    assert(cmd@ =~= given.with_args(args));
    let ghost start = args;
    let ghost types = encoded(crate_types@);
    let ghost type_flag = utf8("--crate-type"@);
    assert(start + flagged(type_flag, types.take(0)) =~= args);
    for i in 0..crate_types.len()
        invariant
            types == encoded(crate_types@),
            type_flag == utf8("--crate-type"@),
            args == start + flagged(type_flag, types.take(i as int)),
            cmd@ == given.with_args(args),
    {
        cmd = with_flag(cmd, "--crate-type", crate_types[i].as_str().as_bytes());
        proof {
            assert(types.take(i + 1).drop_last() =~= types.take(i as int));
            args = start + flagged(type_flag, types.take(i + 1));
            assert(cmd@ =~= given.with_args(args));
        }
    }
    assert(types.take(types.len() as int) =~= types);
    // Whatever the target's own profile says, it is built with the settings of the root package.
    let (opt_level, debug) = effective_settings(cx, target);
    if opt_level != 0 {
        let digits = to_decimal(opt_level);
        cmd = with_flag(cmd, "--opt-level", digits.as_slice());
    }
    proof {
        args = args + opt_level_args(opt_level);
        assert(cmd@ =~= given.with_args(args));
    }
    if debug {
        cmd = cmd.arg_str("-g");
    } else {
        cmd = with_flag(cmd, "--cfg", "ndebug".as_bytes());
    }
    proof {
        args = args + debug_args(debug);
        assert(cmd@ =~= given.with_args(args));
    }
    if target.profile.test && target.profile.harness {
        cmd = cmd.arg_str("--test");
    }
    proof {
        args = args + test_args(*target);
        assert(cmd@ =~= given.with_args(args));
    }
    if let Some(m) = &target.metadata {
        let metadata = concat("metadata=", m.metadata.as_str());
        cmd = with_flag(cmd, "-C", metadata.as_slice());
        let extra_filename = concat("extra-filename=", m.extra_filename.as_str());
        cmd = with_flag(cmd, "-C", extra_filename.as_slice());
    }
    proof {
        args = args + metadata_args(*target);
        assert(cmd@ =~= given.with_args(args));
    }
    cmd
}

/// A flag with a value, where there is a value.
pub open spec fn optional_args(
    key: Seq<char>,
    prefix: Seq<u8>,
    value: Option<String>,
) -> Seq<Seq<u8>> {
    match value {
        Some(value) => seq![utf8(key), prefix + utf8(value@)],
        None => Seq::empty(),
    }
}

/// The arguments for the platform to build for, and the tools to build with.
pub open spec fn platform_args(cx: Context) -> Seq<Seq<u8>> {
    optional_args("--target"@, Seq::empty(), cx.ws.config.target) + optional_args(
        "-C"@,
        utf8("ar="@),
        cx.ws.config.ar,
    ) + optional_args("-C"@, utf8("linker="@), cx.ws.config.linker)
}

/// Where the compiler lists what the results of a kind were made from.
pub open spec fn dep_info(cx: Context, pkg: int, target: int, kind: Kind) -> Seq<u8> {
    match kind {
        Kind::KindPlugin => cx.target_data(pkg, target).plugin_dep_info@,
        Kind::KindTarget => cx.target_data(pkg, target).target_dep_info@,
    }
}

/// The arguments that the compiler gets for a target, for results of a kind.
pub open spec fn plugin_args(cx: Context, pkg: int, target: int, kind: Kind) -> Seq<Seq<u8>> {
    seq![
        utf8("--out-dir"@),
        cx.layout_of(kind).root@,
        utf8("--dep-info"@),
        dep_info(cx, pkg, target, kind),
    ] + match kind {
        Kind::KindPlugin => Seq::empty(),
        Kind::KindTarget => platform_args(cx),
    }
}

/// Adds a flag with a value, where there is a value.
fn with_optional(cmd: ProcessBuilder, key: &str, prefix: &str, value: &Option<String>) -> (out:
    ProcessBuilder)
    ensures
        out@ == cmd@.with_args(optional_args(key@, utf8(prefix@), *value)),
{
    match value {
        Some(value) => {
            let whole = concat(prefix, value.as_str());
            with_flag(cmd, key, whole.as_slice())
        },
        None => {
            assert(cmd@ =~= cmd@.with_args(Seq::empty()));
            cmd
        },
    }
}

/// Adds the arguments that the compiler gets for a target, for results of a kind.
pub fn build_plugin_args(
    cmd: ProcessBuilder,
    cx: &Context,
    pkg: usize,
    target: usize,
    kind: Kind,
) -> (out: ProcessBuilder)
    requires
        cx.wf(),
        cx.has_target(pkg as int, target as int),
    ensures
        out@ == cmd@.with_args(plugin_args(*cx, pkg as int, target as int, kind)),
{
    let ghost given = cmd@;
    assert(cx.data.package_fits(*cx.ws, pkg as int));
    let mut cmd = with_flag(cmd, "--out-dir", cx.layout(kind).root.repr.as_slice());
    let data = &cx.data.packages[pkg].targets[target];
    let dep_info_loc = match kind {
        Kind::KindPlugin => &data.plugin_dep_info,
        Kind::KindTarget => &data.target_dep_info,
    };
    cmd = with_flag(cmd, "--dep-info", dep_info_loc.repr.as_slice());
    if kind == Kind::KindTarget {
        let config = &cx.ws.config;
        cmd = with_optional(cmd, "--target", "", &config.target);
        cmd = with_optional(cmd, "-C", "ar=", &config.ar);
        cmd = with_optional(cmd, "-C", "linker=", &config.linker);
        proof {
            reveal_strlit("");
            assert(utf8(""@) =~= Seq::empty());
        }
    }
    assert(cmd@ =~= given.with_args(plugin_args(*cx, pkg as int, target as int, kind)));
    cmd
}

/// Where the root package has settings for an environment, all targets built for it share them,
/// whatever their own profiles say.
pub proof fn law_root_settings_rule(cx: Context, a: Target, b: Target, at: int)
    requires
        a.profile.env@ == b.profile.env@,
        0 <= at < cx.ws.root().targets@.len(),
        cx.ws.root().targets@[at].profile.env@ == a.profile.env@,
    ensures
        target_settings(cx, a) == target_settings(cx, b),
{
    lemma_settings(
        cx.ws.root().targets@,
        a.profile.env@,
        (a.profile.opt_level, a.profile.debug),
        (b.profile.opt_level, b.profile.debug),
        at,
    );
}

proof fn lemma_settings(
    targets: Seq<Target>,
    env: Seq<char>,
    a: (usize, bool),
    b: (usize, bool),
    at: int,
)
    requires
        0 <= at < targets.len(),
        targets[at].profile.env@ == env,
    ensures
        settings(targets, env, a) == settings(targets, env, b),
    decreases targets.len(),
{
    if targets.last().profile.env@ != env {
        lemma_settings(targets.drop_last(), env, a, b, at);
    }
}

/// Where the root package has no settings for an environment, a target is built with its own.
pub proof fn law_own_settings(cx: Context, target: Target)
    requires
        forall|i: int|
            0 <= i < cx.ws.root().targets@.len() ==> (#[trigger] cx.ws.root().targets@[i]).profile.env@
                != target.profile.env@,
    ensures
        target_settings(cx, target) == (target.profile.opt_level, target.profile.debug),
{
    lemma_own_settings(
        cx.ws.root().targets@,
        target.profile.env@,
        (target.profile.opt_level, target.profile.debug),
    );
}

proof fn lemma_own_settings(targets: Seq<Target>, env: Seq<char>, own: (usize, bool))
    requires
        forall|i: int| 0 <= i < targets.len() ==> (#[trigger] targets[i]).profile.env@ != env,
    ensures
        settings(targets, env, own) == own,
    decreases targets.len(),
{
    if targets.len() > 0 {
        assert(targets[targets.len() - 1].profile.env@ != env);
        lemma_own_settings(targets.drop_last(), env, own);
    }
}

/// A tool runs in the environment of its package, except that the search path for dynamic libraries
/// is replaced.
pub proof fn law_tool_environment(cx: Context, program: Seq<u8>, pkg: int, key: Seq<char>)
    requires
        key != cx.data.dylib_envvar@,
    ensures
        tool(cx, program, pkg).env.contains_key(key) == env_map(
            cx.data.packages@[pkg].process_env@,
        ).contains_key(key),
        tool(cx, program, pkg).env.contains_key(key) ==> tool(cx, program, pkg).env[key] == env_map(
            cx.data.packages@[pkg].process_env@,
        )[key],
{
}

/// The search path that tools run with can be taken apart again: it holds what is searched anyway,
/// and last the directory with the dependencies of plugins.
pub proof fn law_tool_search_path(cx: Context)
    requires
        cx.wf(),
    ensures
        split_on(tool_search_path(cx), LIST_SEPARATOR) == views(cx.data.search_path@).push(
            cx.layout_of(Kind::KindPlugin).deps@,
        ),
{
    let paths = views(cx.data.search_path@).push(cx.layout_of(Kind::KindPlugin).deps@);
    assert forall|i: int| 0 <= i < paths.len() implies !(#[trigger] paths[i]).contains(
        LIST_SEPARATOR,
    ) by {
        if i < cx.data.search_path@.len() {
            assert(paths[i] == cx.data.search_path@[i]@);
        }
    }
    law_split_of_join(paths, LIST_SEPARATOR);
}

/// A tool is the given program, it gets no arguments by itself, and it runs in the directory of its
/// package; the search path for dynamic libraries is set, whatever the package has for it.
pub proof fn law_tool_runs_for_its_package(cx: Context, program: Seq<u8>, pkg: int)
    ensures
        tool(cx, program, pkg).program == program,
        tool(cx, program, pkg).args.len() == 0,
        tool(cx, program, pkg).cwd == cx.data.packages@[pkg].process_cwd@,
        tool(cx, program, pkg).env.contains_pair(
            cx.data.dylib_envvar@,
            Some(tool_search_path(cx)),
        ),
{
}

} // verus!
