//! The build commands of a package.

use crate::context::{Context, Kind, Layout};
use crate::error::{internal, internal_view, CargoError, ErrorView};
use crate::ops::cargo_rustc::args::{process, tool};
use crate::ops::cargo_rustc::work::{CustomBuild, CustomView, Work, WorkView};
use crate::package::{Profile, Target};
use crate::process_builder::{copy_bytes, Command};
use crate::split::{lemma_split_nonempty, split_on};
use crate::text::{
    bool_text, decimal, enclose, env_name, split_at_spaces, to_decimal, to_env_name, utf8, views,
};
use vstd::prelude::*;

verus! {

/// The profile of the first of `targets` that is built for `env`.
pub open spec fn first_profile(targets: Seq<Target>, env: Seq<char>) -> Option<Profile>
    decreases targets.len(),
{
    if targets.len() == 0 {
        None
    } else {
        match first_profile(targets.drop_last(), env) {
            Some(profile) => Some(profile),
            None => if targets.last().profile.env@ == env {
                Some(targets.last().profile)
            } else {
                None
            },
        }
    }
}

/// The variable that tells where the build commands of a dependency put their results.
pub open spec fn dep_variable(name: Seq<char>) -> Seq<char> {
    "DEP_"@ + env_name(name) + "_OUT_DIR"@
}

/// `command`, told where the build commands of the packages of `deps` put their results.
pub open spec fn with_dep_dirs(
    cx: Context,
    layout: Layout,
    command: Command,
    deps: Seq<(usize, usize)>,
) -> Command
    decreases deps.len(),
{
    if deps.len() == 0 {
        command
    } else {
        let dep = deps.last().0 as int;
        with_dep_dirs(cx, layout, command, deps.drop_last()).with_env(
            dep_variable(cx.package(dep).name@),
            layout.native@[dep]@,
        )
    }
}

/// The process for a build command, told about its own package: its first word is the program and the
/// others are the arguments.
pub open spec fn own_command(cx: Context, pkg: int, cmd: Seq<char>, profile: Profile) -> Command {
    let words = split_on(cmd, ' ');
    let output = cx.layout_of(Kind::KindTarget).native@[pkg]@;
    tool(cx, utf8(words[0]), pkg).with_args(
        words.drop_first().map_values(|word: Seq<char>| utf8(word)),
    ).with_env("OUT_DIR"@, output).with_env("DEPS_DIR"@, output).with_env(
        "TARGET"@,
        utf8(cx.data.target_triple@),
    ).with_env("DEBUG"@, utf8(bool_text(profile.debug))).with_env(
        "OPT_LEVEL"@,
        decimal(profile.opt_level as nat),
    ).with_env("PROFILE"@, utf8(profile.env@))
}

/// The process for a build command, told about the packages that its own is linked to as well.
pub open spec fn custom_command(cx: Context, pkg: int, cmd: Seq<char>, profile: Profile) -> Command {
    with_dep_dirs(
        cx,
        cx.layout_of(Kind::KindTarget),
        own_command(cx, pkg, cmd, profile),
        cx.data.packages@[pkg].dep_targets@,
    )
}

/// The work of running a build command, or why there is none.
pub open spec fn custom_work(cx: Context, pkg: int, cmd: Seq<char>, first: bool) -> Result<
    WorkView,
    ErrorView,
> {
    match first_profile(cx.ws.root().targets@, cx.ws.env@) {
        Some(profile) => Ok(
            WorkView::Custom(
                CustomView {
                    first,
                    output: cx.layout_of(Kind::KindTarget).native@[pkg]@,
                    old_output: cx.layout_of(Kind::KindTarget).old_native@[pkg]@,
                    command: custom_command(cx, pkg, cmd, profile),
                    package: cx.package(pkg).display@,
                },
            ),
        ),
        None => Err(internal_view("no profile for "@ + cx.ws.env@)),
    }
}

/// Finds the profile of the first target of the root package that is built for what the build is
/// for.
fn root_profile<'a>(cx: &Context<'a>) -> (profile: Option<&'a Profile>)
    requires
        cx.wf(),
    ensures
        match (profile, first_profile(cx.ws.root().targets@, cx.ws.env@)) {
            (Some(profile), Some(expected)) => *profile == expected,
            (None, None) => true,
            _ => false,
        },
{
    let root = &cx.ws.packages[cx.ws.resolve.root];
    let ghost all = root.targets@;
    for i in 0..root.targets.len()
        invariant
            all == root.targets@,
            all == cx.ws.root().targets@,
            first_profile(all.take(i as int), cx.ws.env@) is None,
    {
        assert(all.take(i + 1).drop_last() =~= all.take(i as int));
        if root.targets[i].profile.env == cx.ws.env {
            proof {
                lemma_first_profile(all.take(i + 1), all.skip(i + 1), cx.ws.env@);
                assert(all.take(i + 1) + all.skip(i + 1) =~= all);
            }
            return Some(&root.targets[i].profile);
        }
    }
    assert(all.take(all.len() as int) =~= all);
    None
}

proof fn lemma_first_profile(a: Seq<Target>, b: Seq<Target>, env: Seq<char>)
    requires
        first_profile(a, env) is Some,
    ensures
        first_profile(a + b, env) == first_profile(a, env),
    decreases b.len(),
{
    if b.len() == 0 {
        assert(a + b =~= a);
    } else {
        assert((a + b).drop_last() =~= a + b.drop_last());
        lemma_first_profile(a, b.drop_last(), env);
    }
}

/// The work of running a build command of a package.
pub fn compile_custom(pkg: usize, cmd: &str, cx: &Context, first: bool) -> (work: Result<
    Work,
    CargoError,
>)
    requires
        cx.wf(),
        cx.has_package(pkg as int),
    ensures
        match (work, custom_work(*cx, pkg as int, cmd@, first)) {
            (Ok(work), Ok(expected)) => work@ == expected,
            (Err(error), Err(why)) => error@ == why,
            _ => false,
        },
{
    let profile = match root_profile(cx) {
        Some(profile) => profile,
        None => {
            let message = enclose("no profile for ", cx.ws.env.as_str(), "");
            proof {
                reveal_strlit("");
                assert(message@ =~= "no profile for "@ + cx.ws.env@);
            }
            return Err(internal(message));
        },
    };
    let words = split_at_spaces(cmd);
    let layout = cx.layout(Kind::KindTarget);
    let output = &layout.native[pkg];
    let old_output = &layout.old_native[pkg];
    let ghost start = tool(*cx, utf8(words@[0]@), pkg as int);
    let ghost pieces = split_on(cmd@, ' ');
    let mut p = process(words[0].as_str().as_bytes(), pkg, cx);
    let ghost args = pieces.drop_first().map_values(|word: Seq<char>| utf8(word));
    assert(p@ =~= start.with_args(args.take(0)));
    for i in 1..words.len()
        invariant
            words@.len() >= 1,
            pieces == views(words@),
            args == pieces.drop_first().map_values(|word: Seq<char>| utf8(word)),
            p@ == start.with_args(args.take(i - 1)),
    {
        p = p.arg_str(words[i].as_str());
        assert(args[i - 1] == utf8(words@[i as int]@));
        assert(args.take(i as int) =~= args.take(i - 1).push(args[i - 1]));
        assert(p@ =~= start.with_args(args.take(i as int)));
    }
    assert(args.take(args.len() as int) =~= args);
    p = p.env("OUT_DIR", copy_bytes(&output.repr));
    p = p.env("DEPS_DIR", copy_bytes(&output.repr));
    p = p.env_str("TARGET", cx.data.target_triple.as_str());
    p = p.env_str("DEBUG", if profile.debug { "true" } else { "false" });
    p = p.env("OPT_LEVEL", to_decimal(profile.opt_level));
    p = p.env_str("PROFILE", profile.env.as_str());
    let ghost told = p@;
    let deps = &cx.data.packages[pkg].dep_targets;
    assert(cx.data.package_fits(*cx.ws, pkg as int));
    for i in 0..deps.len()
        invariant
            cx.wf(),
            cx.has_package(pkg as int),
            *layout == cx.layout_of(Kind::KindTarget),
            deps@ == cx.data.packages@[pkg as int].dep_targets@,
            cx.data.package_fits(*cx.ws, pkg as int),
            p@ == with_dep_dirs(*cx, *layout, told, deps@.take(i as int)),
    {
        assert(crate::context::ContextData::names_target(
            *cx.ws,
            cx.data.packages@[pkg as int].dep_targets@[i as int],
        ));
        let dep = deps[i].0;
        let name = to_env_name(cx.ws.packages[dep].name.as_str());
        let variable = enclose("DEP_", name.as_str(), "_OUT_DIR");
        p = p.env(variable.as_str(), copy_bytes(&layout.native[dep].repr));
        assert(deps@.take(i + 1).drop_last() =~= deps@.take(i as int));
    }
    assert(deps@.take(deps@.len() as int) =~= deps@);
    Ok(
        Work::Custom(
            CustomBuild {
                first,
                output: output.clone(),
                old_output: old_output.clone(),
                command: p,
                package: cx.ws.packages[pkg].display.clone(),
            },
        ),
    )
}

proof fn lemma_other_variables(
    cx: Context,
    layout: Layout,
    command: Command,
    deps: Seq<(usize, usize)>,
    key: Seq<char>,
)
    requires
        forall|name: Seq<char>| #[trigger] dep_variable(name) != key,
        command.env.contains_key(key),
    ensures
        with_dep_dirs(cx, layout, command, deps).env.contains_key(key),
        with_dep_dirs(cx, layout, command, deps).env[key] == command.env[key],
    decreases deps.len(),
{
    if deps.len() > 0 {
        lemma_other_variables(cx, layout, command, deps.drop_last(), key);
        assert(dep_variable(cx.package(deps.last().0 as int).name@) != key);
    }
}

/// A variable about a dependency starts with `DEP_`.
proof fn lemma_dep_variable(name: Seq<char>)
    ensures
        dep_variable(name).len() > 4,
        dep_variable(name)[0] == 'D',
        dep_variable(name)[2] == 'P',
        dep_variable(name)[3] == '_',
{
    reveal_strlit("DEP_");
    reveal_strlit("_OUT_DIR");
    let head = "DEP_"@;
    assert(dep_variable(name) =~= head + (env_name(name) + "_OUT_DIR"@));
    assert(dep_variable(name)[0] == head[0]);
    assert(dep_variable(name)[2] == head[2]);
    assert(dep_variable(name)[3] == head[3]);
}

/// What a build command is told does not depend on how its dependencies are named: its own
/// variables keep their meaning.
pub proof fn law_custom_variables(cx: Context, pkg: int, cmd: Seq<char>, profile: Profile)
    ensures
        ({
            let env = custom_command(cx, pkg, cmd, profile).env;
            let output = cx.layout_of(Kind::KindTarget).native@[pkg]@;
            &&& env.contains_pair("OUT_DIR"@, Some(output))
            &&& env.contains_pair("DEPS_DIR"@, Some(output))
            &&& env.contains_pair("TARGET"@, Some(utf8(cx.data.target_triple@)))
            &&& env.contains_pair("DEBUG"@, Some(utf8(bool_text(profile.debug))))
            &&& env.contains_pair("OPT_LEVEL"@, Some(decimal(profile.opt_level as nat)))
            &&& env.contains_pair("PROFILE"@, Some(utf8(profile.env@)))
        }),
{
    let layout = cx.layout_of(Kind::KindTarget);
    let deps = cx.data.packages@[pkg].dep_targets@;
    let command = own_command(cx, pkg, cmd, profile);
    reveal_strlit("OUT_DIR");
    reveal_strlit("DEPS_DIR");
    reveal_strlit("TARGET");
    reveal_strlit("DEBUG");
    reveal_strlit("OPT_LEVEL");
    reveal_strlit("PROFILE");
    let (a, b, c) = ("OUT_DIR"@, "DEPS_DIR"@, "TARGET"@);
    let (d, e, f) = ("DEBUG"@, "OPT_LEVEL"@, "PROFILE"@);
    assert(a[0] == 'O' && b[3] == 'S' && c[0] == 'T' && d[2] == 'B' && e[0] == 'O' && f[0] == 'P');
    assert(a[1] == 'U' && e[1] == 'P' && b[0] == 'D' && d[0] == 'D' && b[2] == 'P');
    assert forall|name: Seq<char>| #[trigger] dep_variable(name) != a && dep_variable(name) != b
        && dep_variable(name) != c && dep_variable(name) != d && dep_variable(name) != e
        && dep_variable(name) != f by {
        lemma_dep_variable(name);
    }
    lemma_other_variables(cx, layout, command, deps, a);
    lemma_other_variables(cx, layout, command, deps, b);
    lemma_other_variables(cx, layout, command, deps, c);
    lemma_other_variables(cx, layout, command, deps, d);
    lemma_other_variables(cx, layout, command, deps, e);
    lemma_other_variables(cx, layout, command, deps, f);
}

proof fn lemma_dep_dirs(
    cx: Context,
    layout: Layout,
    command: Command,
    deps: Seq<(usize, usize)>,
    at: int,
)
    requires
        0 <= at < deps.len(),
        forall|j: int|
            0 <= j < deps.len() && dep_variable(cx.package((#[trigger] deps[j]).0 as int).name@)
                == dep_variable(cx.package(deps[at].0 as int).name@) ==> deps[j].0 == deps[at].0,
    ensures
        with_dep_dirs(cx, layout, command, deps).env.contains_pair(
            dep_variable(cx.package(deps[at].0 as int).name@),
            Some(layout.native@[deps[at].0 as int]@),
        ),
    decreases deps.len(),
{
    let front = deps.drop_last();
    let last = deps.len() - 1;
    assert(deps[last] == deps.last());
    if at < last {
        assert forall|j: int|
            0 <= j < front.len() && dep_variable(cx.package((#[trigger] front[j]).0 as int).name@)
                == dep_variable(cx.package(front[at].0 as int).name@) implies front[j].0
            == front[at].0 by {
            assert(deps[j] == front[j]);
        }
        lemma_dep_dirs(cx, layout, command, front, at);
    }
}

/// A build command is told where the build commands of each package that it is linked to put their
/// results, as long as no other one has the same name in the environment.
pub proof fn law_custom_dependencies(
    cx: Context,
    pkg: int,
    cmd: Seq<char>,
    profile: Profile,
    at: int,
)
    requires
        0 <= at < cx.data.packages@[pkg].dep_targets@.len(),
        forall|j: int|
            0 <= j < cx.data.packages@[pkg].dep_targets@.len() && dep_variable(
                cx.package((#[trigger] cx.data.packages@[pkg].dep_targets@[j]).0 as int).name@,
            ) == dep_variable(cx.package(cx.data.packages@[pkg].dep_targets@[at].0 as int).name@)
                ==> cx.data.packages@[pkg].dep_targets@[j].0
                == cx.data.packages@[pkg].dep_targets@[at].0,
    ensures
        ({
            let dep = cx.data.packages@[pkg].dep_targets@[at].0 as int;
            custom_command(cx, pkg, cmd, profile).env.contains_pair(
                dep_variable(cx.package(dep).name@),
                Some(cx.layout_of(Kind::KindTarget).native@[dep]@),
            )
        }),
{
    let layout = cx.layout_of(Kind::KindTarget);
    let command = own_command(cx, pkg, cmd, profile);
    lemma_dep_dirs(cx, layout, command, cx.data.packages@[pkg].dep_targets@, at);
}

/// Build commands fail to be planned only where the root package has no target for what is built
/// for.
pub proof fn law_custom_needs_profile(cx: Context, pkg: int, cmd: Seq<char>, first: bool)
    ensures
        custom_work(cx, pkg, cmd, first) is Ok <==> exists|i: int|
            0 <= i < cx.ws.root().targets@.len() && (
            #[trigger] cx.ws.root().targets@[i]).profile.env@ == cx.ws.env@,
{
    lemma_first_profile_some(cx.ws.root().targets@, cx.ws.env@);
}

proof fn lemma_first_profile_some(targets: Seq<Target>, env: Seq<char>)
    ensures
        first_profile(targets, env) is Some <==> exists|i: int|
            0 <= i < targets.len() && (#[trigger] targets[i]).profile.env@ == env,
    decreases targets.len(),
{
    if targets.len() > 0 {
        let front = targets.drop_last();
        lemma_first_profile_some(front, env);
        assert(targets[targets.len() - 1] == targets.last());
        if first_profile(front, env) is Some {
            let i = choose|i: int| 0 <= i < front.len() && front[i].profile.env@ == env;
            assert(targets[i] == front[i]);
        }
        if exists|i: int| 0 <= i < targets.len() && (#[trigger] targets[i]).profile.env@ == env {
            let i = choose|i: int| 0 <= i < targets.len() && targets[i].profile.env@ == env;
            if i < front.len() {
                assert(front[i] == targets[i]);
            }
        }
    }
}

/// What a build command leads to: its words in order as the program and its arguments, run in the
/// directory of its package, with the directories for its results, and reported under the package as
/// it is shown to the user.
pub proof fn law_custom_words(cx: Context, pkg: int, cmd: Seq<char>, first: bool)
    requires
        custom_work(cx, pkg, cmd, first) is Ok,
    ensures
        custom_work(cx, pkg, cmd, first)->Ok_0 is Custom,
        ({
            let work = custom_work(cx, pkg, cmd, first)->Ok_0->Custom_0;
            let words = split_on(cmd, ' ');
            let layout = cx.layout_of(Kind::KindTarget);
            &&& work.first == first
            &&& work.output == layout.native@[pkg]@
            &&& work.old_output == layout.old_native@[pkg]@
            &&& work.package == cx.ws.packages@[pkg].display@
            &&& work.command.cwd == cx.data.packages@[pkg].process_cwd@
            &&& work.command.program == utf8(words[0])
            &&& work.command.args.len() == words.len() - 1
            &&& forall|i: int|
                0 <= i < work.command.args.len() ==> #[trigger] work.command.args[i] == utf8(
                    words[i + 1],
                )
        }),
{
    let profile = first_profile(cx.ws.root().targets@, cx.ws.env@)->0;
    let deps = cx.data.packages@[pkg].dep_targets@;
    let layout = cx.layout_of(Kind::KindTarget);
    lemma_split_nonempty(cmd, ' ');
    lemma_dep_dirs_keep(cx, layout, own_command(cx, pkg, cmd, profile), deps);
}

proof fn lemma_dep_dirs_keep(
    cx: Context,
    layout: Layout,
    command: Command,
    deps: Seq<(usize, usize)>,
)
    ensures
        with_dep_dirs(cx, layout, command, deps).program == command.program,
        with_dep_dirs(cx, layout, command, deps).args == command.args,
        with_dep_dirs(cx, layout, command, deps).cwd == command.cwd,
    decreases deps.len(),
{
    if deps.len() > 0 {
        lemma_dep_dirs_keep(cx, layout, command, deps.drop_last());
    }
}

proof fn lemma_first_profile_at(targets: Seq<Target>, env: Seq<char>, at: int)
    requires
        0 <= at < targets.len(),
        targets[at].profile.env@ == env,
        forall|j: int| 0 <= j < at ==> (#[trigger] targets[j]).profile.env@ != env,
    ensures
        first_profile(targets, env) == Some(targets[at].profile),
    decreases targets.len(),
{
    let front = targets.drop_last();
    if at < front.len() {
        assert forall|j: int| 0 <= j < at implies (#[trigger] front[j]).profile.env@ != env by {
            assert(front[j] == targets[j]);
        }
        lemma_first_profile_at(front, env, at);
    } else {
        lemma_first_profile_some(front, env);
        if first_profile(front, env) is Some {
            let i = choose|i: int| 0 <= i < front.len() && front[i].profile.env@ == env;
            assert(targets[i].profile.env@ == env);
        }
    }
}

/// A build command is told the settings of the first target of the root package that is built for
/// what the build is for.
pub proof fn law_custom_settings(cx: Context, pkg: int, cmd: Seq<char>, first: bool, at: int)
    requires
        0 <= at < cx.ws.root().targets@.len(),
        cx.ws.root().targets@[at].profile.env@ == cx.ws.env@,
        forall|j: int|
            0 <= j < at ==> (#[trigger] cx.ws.root().targets@[j]).profile.env@ != cx.ws.env@,
    ensures
        custom_work(cx, pkg, cmd, first) is Ok,
        ({
            let env = custom_work(cx, pkg, cmd, first)->Ok_0->Custom_0.command.env;
            let profile = cx.ws.packages@[cx.ws.resolve.root as int].targets@[at].profile;
            let output = cx.layout_of(Kind::KindTarget).native@[pkg]@;
            &&& env.contains_pair("OUT_DIR"@, Some(output))
            &&& env.contains_pair("DEPS_DIR"@, Some(output))
            &&& env.contains_pair("TARGET"@, Some(utf8(cx.data.target_triple@)))
            &&& profile.debug ==> env.contains_pair("DEBUG"@, Some(utf8("true"@)))
            &&& !profile.debug ==> env.contains_pair("DEBUG"@, Some(utf8("false"@)))
            &&& env.contains_pair("OPT_LEVEL"@, Some(decimal(profile.opt_level as nat)))
            &&& env.contains_pair("PROFILE"@, Some(utf8(cx.ws.env@)))
        }),
{
    lemma_first_profile_at(cx.ws.root().targets@, cx.ws.env@, at);
    law_custom_variables(cx, pkg, cmd, cx.ws.root().targets@[at].profile);
}

/// Where the root package has no target for what the build is for, a build command fails with a
/// message that names it and is not for the user.
pub proof fn law_custom_without_profile(cx: Context, pkg: int, cmd: Seq<char>, first: bool)
    requires
        forall|i: int|
            0 <= i < cx.ws.root().targets@.len() ==> (
            #[trigger] cx.ws.root().targets@[i]).profile.env@ != cx.ws.env@,
    ensures
        custom_work(cx, pkg, cmd, first) == Err::<WorkView, ErrorView>(
            ErrorView::Message {
                description: "no profile for "@ + cx.ws.env@,
                is_human: false,
                cause: None,
            },
        ),
{
    law_custom_needs_profile(cx, pkg, cmd, first);
}

proof fn lemma_dep_dirs_last(
    cx: Context,
    layout: Layout,
    command: Command,
    deps: Seq<(usize, usize)>,
    at: int,
)
    requires
        0 <= at < deps.len(),
        forall|j: int|
            at < j < deps.len() ==> dep_variable(
                cx.package((#[trigger] deps[j]).0 as int).name@,
            ) != dep_variable(cx.package(deps[at].0 as int).name@),
    ensures
        with_dep_dirs(cx, layout, command, deps).env.contains_pair(
            dep_variable(cx.package(deps[at].0 as int).name@),
            Some(layout.native@[deps[at].0 as int]@),
        ),
    decreases deps.len(),
{
    let front = deps.drop_last();
    if at < front.len() {
        assert(dep_variable(cx.package(deps[deps.len() - 1].0 as int).name@) != dep_variable(
            cx.package(deps[at].0 as int).name@,
        ));
        assert forall|j: int| at < j < front.len() implies dep_variable(
            cx.package((#[trigger] front[j]).0 as int).name@,
        ) != dep_variable(cx.package(front[at].0 as int).name@) by {
            assert(front[j] == deps[j]);
        }
        lemma_dep_dirs_last(cx, layout, command, front, at);
    }
}

/// A build command is told where the build commands of each package that its own is linked to put
/// their results; of packages that are called alike in the environment the last one counts.
pub proof fn law_custom_last_dependency_counts(
    cx: Context,
    pkg: int,
    cmd: Seq<char>,
    first: bool,
    at: int,
)
    requires
        custom_work(cx, pkg, cmd, first) is Ok,
        0 <= at < cx.data.packages@[pkg].dep_targets@.len(),
        forall|j: int|
            at < j < cx.data.packages@[pkg].dep_targets@.len() ==> env_name(
                cx.ws.packages@[(
                #[trigger] cx.data.packages@[pkg].dep_targets@[j]).0 as int].name@,
            ) != env_name(
                cx.ws.packages@[cx.data.packages@[pkg].dep_targets@[at].0 as int].name@,
            ),
    ensures
        ({
            let dep = cx.data.packages@[pkg].dep_targets@[at].0 as int;
            let env = custom_work(cx, pkg, cmd, first)->Ok_0->Custom_0.command.env;
            env.contains_pair(
                "DEP_"@ + env_name(cx.ws.packages@[dep].name@) + "_OUT_DIR"@,
                Some(cx.layout_of(Kind::KindTarget).native@[dep]@),
            )
        }),
{
    let profile = first_profile(cx.ws.root().targets@, cx.ws.env@)->0;
    let deps = cx.data.packages@[pkg].dep_targets@;
    assert forall|j: int| at < j < deps.len() implies dep_variable(
        cx.package((#[trigger] deps[j]).0 as int).name@,
    ) != dep_variable(cx.package(deps[at].0 as int).name@) by {
        lemma_dep_variables_differ(
            cx.package(deps[j].0 as int).name@,
            cx.package(deps[at].0 as int).name@,
        );
    }
    lemma_dep_dirs_last(
        cx,
        cx.layout_of(Kind::KindTarget),
        own_command(cx, pkg, cmd, profile),
        deps,
        at,
    );
}

proof fn lemma_dep_variables_differ(a: Seq<char>, b: Seq<char>)
    requires
        env_name(a) != env_name(b),
    ensures
        dep_variable(a) != dep_variable(b),
{
    if dep_variable(a) == dep_variable(b) {
        let head = "DEP_"@;
        let tail = "_OUT_DIR"@;
        let x = dep_variable(a);
        assert(x.len() == head.len() + env_name(a).len() + tail.len());
        assert(dep_variable(b).len() == head.len() + env_name(b).len() + tail.len());
        let n = head.len() as int;
        assert(env_name(a) =~= x.subrange(n, n + env_name(a).len()));
        assert(env_name(b) =~= dep_variable(b).subrange(n, n + env_name(b).len()));
    }
}

/// Apart from the variables that a build command is told, its environment is that of any tool that is
/// run on behalf of its package.
pub proof fn law_custom_other_variables(
    cx: Context,
    pkg: int,
    cmd: Seq<char>,
    first: bool,
    key: Seq<char>,
)
    requires
        custom_work(cx, pkg, cmd, first) is Ok,
        key != "OUT_DIR"@ && key != "DEPS_DIR"@ && key != "TARGET"@ && key != "DEBUG"@,
        key != "OPT_LEVEL"@ && key != "PROFILE"@,
        forall|j: int|
            0 <= j < cx.data.packages@[pkg].dep_targets@.len() ==> "DEP_"@ + env_name(
                cx.ws.packages@[(
                #[trigger] cx.data.packages@[pkg].dep_targets@[j]).0 as int].name@,
            ) + "_OUT_DIR"@ != key,
    ensures
        ({
            let env = custom_work(cx, pkg, cmd, first)->Ok_0->Custom_0.command.env;
            let tool_env = tool(cx, utf8(split_on(cmd, ' ')[0]), pkg).env;
            env.contains_key(key) == tool_env.contains_key(key) && (env.contains_key(key)
                ==> env[key] == tool_env[key])
        }),
{
    let profile = first_profile(cx.ws.root().targets@, cx.ws.env@)->0;
    lemma_dep_dirs_others(
        cx,
        cx.layout_of(Kind::KindTarget),
        own_command(cx, pkg, cmd, profile),
        cx.data.packages@[pkg].dep_targets@,
        key,
    );
}

proof fn lemma_dep_dirs_others(
    cx: Context,
    layout: Layout,
    command: Command,
    deps: Seq<(usize, usize)>,
    key: Seq<char>,
)
    requires
        forall|j: int|
            0 <= j < deps.len() ==> "DEP_"@ + env_name(
                cx.ws.packages@[(#[trigger] deps[j]).0 as int].name@,
            ) + "_OUT_DIR"@ != key,
    ensures
        with_dep_dirs(cx, layout, command, deps).env.contains_key(key) == command.env.contains_key(
            key,
        ),
        command.env.contains_key(key) ==> with_dep_dirs(cx, layout, command, deps).env[key]
            == command.env[key],
    decreases deps.len(),
{
    if deps.len() > 0 {
        let front = deps.drop_last();
        assert(deps[deps.len() - 1] == deps.last());
        assert forall|j: int| 0 <= j < front.len() implies "DEP_"@ + env_name(
            cx.ws.packages@[(#[trigger] front[j]).0 as int].name@,
        ) + "_OUT_DIR"@ != key by {
            assert(front[j] == deps[j]);
        }
        lemma_dep_dirs_others(cx, layout, command, front, key);
    }
}

} // verus!
