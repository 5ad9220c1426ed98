//! The runs of the compiler and of the documentation tool for a target.

use crate::context::{Context, Kind, PlatformRequirement};
use crate::error::{CargoError, ErrorView};
use crate::ops::cargo_rustc::args::{
    base_args, build_base_args, build_plugin_args, plugin_args, process, tool, with_flag,
};
use crate::ops::cargo_rustc::deps::{build_deps_args, deps_args, law_links_fail_alike};
use crate::ops::cargo_rustc::work::{
    Description, DescriptionView, ToolRun, ToolView, Unit, UnitView, Work, WorkView,
};
use crate::path::joined;
use crate::process_builder::{Command, ProcessBuilder};
use crate::text::{lemma_views_push, utf8, views};
use vstd::prelude::*;

verus! {

/// The run of the compiler for a target that leads to results of a kind, or why there is none.
pub open spec fn rustc_command(
    cx: Context,
    pkg: int,
    target: int,
    crate_types: Seq<String>,
    kind: Kind,
) -> Result<Command, ErrorView> {
    match deps_args(cx, pkg, target, kind) {
        Ok(deps) => Ok(
            tool(cx, utf8("rustc"@), pkg).with_args(
                base_args(cx, cx.target(pkg, target), crate_types) + plugin_args(
                    cx,
                    pkg,
                    target,
                    kind,
                ) + deps,
            ),
        ),
        Err(error) => Err(error),
    }
}

/// The kinds of results that a target is compiled for. A target that is needed as a plugin too is
/// compiled twice only where the platform to build for is not the host.
pub open spec fn kinds(cx: Context, req: PlatformRequirement) -> Seq<Kind> {
    match req {
        PlatformRequirement::Target => seq![Kind::KindTarget],
        PlatformRequirement::Plugin => seq![Kind::KindPlugin],
        PlatformRequirement::PluginAndTarget => if cx.ws.config.target is None {
            seq![Kind::KindTarget]
        } else {
            seq![Kind::KindTarget, Kind::KindPlugin]
        },
    }
}

/// The commands and their kinds, as views.
pub open spec fn command_views(commands: Seq<(ProcessBuilder, Kind)>) -> Seq<(Command, Kind)> {
    commands.map_values(|command: (ProcessBuilder, Kind)| (command.0@, command.1))
}

/// The runs of the compiler for a target, or why there are none.
pub open spec fn rustc_commands(
    cx: Context,
    pkg: int,
    target: int,
    crate_types: Seq<String>,
    req: PlatformRequirement,
) -> Result<Seq<(Command, Kind)>, ErrorView> {
    match rustc_command(cx, pkg, target, crate_types, Kind::KindTarget) {
        Ok(_) => Ok(
            kinds(cx, req).map_values(
                |kind: Kind| (rustc_command(cx, pkg, target, crate_types, kind)->Ok_0, kind),
            ),
        ),
        Err(error) => Err(error),
    }
}

/// The runs of the compiler for a target.
pub fn prepare_rustc(
    package: usize,
    target: usize,
    crate_types: &Vec<String>,
    cx: &Context,
    req: PlatformRequirement,
) -> (commands: Result<Vec<(ProcessBuilder, Kind)>, CargoError>)
    requires
        cx.wf(),
        cx.has_target(package as int, target as int),
    ensures
        match (
            commands,
            rustc_commands(*cx, package as int, target as int, crate_types@, req),
        ) {
            (Ok(commands), Ok(expected)) => command_views(commands@) == expected,
            (Err(error), Err(why)) => error@ == why,
            _ => false,
        },
{
    let ghost pkg = package as int;
    let ghost tgt = target as int;
    proof {
        law_links_fail_alike(*cx, pkg, tgt, Kind::KindTarget, Kind::KindPlugin);
    }
    let base = process("rustc".as_bytes(), package, cx);
    let base = build_base_args(cx, base, &cx.ws.packages[package].targets[target], crate_types);
    let target_cmd = build_plugin_args(base.clone(), cx, package, target, Kind::KindTarget);
    let plugin_cmd = build_plugin_args(base, cx, package, target, Kind::KindPlugin);
    let target_cmd = match build_deps_args(target_cmd, target, package, cx, Kind::KindTarget) {
        Ok(cmd) => cmd,
        Err(error) => return Err(error),
    };
    let plugin_cmd = match build_deps_args(plugin_cmd, target, package, cx, Kind::KindPlugin) {
        Ok(cmd) => cmd,
        Err(error) => return Err(error),
    };
    assert(target_cmd@ =~= rustc_command(*cx, pkg, tgt, crate_types@, Kind::KindTarget)->Ok_0);
    assert(plugin_cmd@ =~= rustc_command(*cx, pkg, tgt, crate_types@, Kind::KindPlugin)->Ok_0);
    let mut commands: Vec<(ProcessBuilder, Kind)> = Vec::new();
    match req {
        PlatformRequirement::Target => {
            commands.push((target_cmd, Kind::KindTarget));
        },
        PlatformRequirement::Plugin => {
            commands.push((plugin_cmd, Kind::KindPlugin));
        },
        PlatformRequirement::PluginAndTarget => {
            commands.push((target_cmd, Kind::KindTarget));
            if cx.ws.config.target.is_some() {
                commands.push((plugin_cmd, Kind::KindPlugin));
            }
        },
    }
    assert(command_views(commands@) =~= rustc_commands(*cx, pkg, tgt, crate_types@, req)->Ok_0);
    Ok(commands)
}

/// A run of the compiler.
pub open spec fn rustc_unit(cx: Context, pkg: int, command: (Command, Kind)) -> UnitView {
    UnitView {
        work: WorkView::Rustc(
            ToolView { command: command.0, primary: cx.primary, name: cx.package(pkg).name@ },
        ),
        kind: command.1,
        desc: DescriptionView::Command(command.0),
    }
}

/// The work of compiling a target, or why there is none.
pub open spec fn rustc_units(
    cx: Context,
    pkg: int,
    target: int,
    req: PlatformRequirement,
) -> Result<Seq<UnitView>, ErrorView> {
    match rustc_commands(cx, pkg, target, cx.target(pkg, target).crate_types@, req) {
        Ok(commands) => Ok(
            commands.map_values(|command: (Command, Kind)| rustc_unit(cx, pkg, command)),
        ),
        Err(error) => Err(error),
    }
}

/// The work of compiling a target.
pub fn rustc(package: usize, target: usize, cx: &Context, req: PlatformRequirement) -> (units: Result<
    Vec<Unit>,
    CargoError,
>)
    requires
        cx.wf(),
        cx.has_target(package as int, target as int),
    ensures
        match (units, rustc_units(*cx, package as int, target as int, req)) {
            (Ok(units), Ok(expected)) => views(units@) == expected,
            (Err(error), Err(why)) => error@ == why,
            _ => false,
        },
{
    let crate_types = &cx.ws.packages[package].targets[target].crate_types;
    let mut rest = match prepare_rustc(package, target, crate_types, cx, req) {
        Ok(commands) => commands,
        Err(error) => return Err(error),
    };
    let ghost commands = command_views(rest@);
    let ghost all = rustc_units(*cx, package as int, target as int, req)->Ok_0;
    let mut units: Vec<Unit> = Vec::new();
    assert(views(units@) =~= all.take(0));
    let ghost mut done: int = 0;
    while rest.len() > 0
        invariant
            cx.has_package(package as int),
            all == commands.map_values(
                |command: (Command, Kind)| rustc_unit(*cx, package as int, command),
            ),
            0 <= done,
            done + rest@.len() == all.len(),
            command_views(rest@) == commands.skip(done),
            views(units@) == all.take(done),
        decreases rest@.len(),
    {
        let ghost before = rest@;
        let (command, kind) = rest.remove(0);
        let desc = Description::Command(command.clone());
        let work = Work::Rustc(
            ToolRun {
                command,
                primary: cx.primary,
                name: cx.ws.packages[package].name.clone(),
            },
        );
        let unit = Unit { work, kind, desc };
        proof {
            lemma_views_push(units@, unit);
            assert(command_views(before)[0] == commands[done]);
            assert(unit@ == all[done]);
            assert(rest@ =~= before.drop_first());
            assert(command_views(rest@) =~= command_views(before).drop_first());
            assert(commands.skip(done).drop_first() =~= commands.skip(done + 1));
            assert(all.take(done + 1) =~= all.take(done).push(all[done]));
            done = done + 1;
        }
        units.push(unit);
    }
    assert(all.take(all.len() as int) =~= all);
    Ok(units)
}

/// The run of the documentation tool for a target, or why there is none.
pub open spec fn rustdoc_command(cx: Context, pkg: int, target: int) -> Result<Command, ErrorView> {
    match deps_args(cx, pkg, target, Kind::KindTarget) {
        Ok(deps) => Ok(
            Command {
                cwd: cx.package(pkg).root@,
                ..tool(cx, utf8("rustdoc"@), pkg)
            }.with_args(
                seq![
                    cx.target(pkg, target).src_path@,
                    utf8("-o"@),
                    joined(cx.layout_of(Kind::KindTarget).dest@, utf8("doc"@)),
                    utf8("--crate-name"@),
                    utf8(cx.target(pkg, target).name@),
                ] + deps,
            ),
        ),
        Err(error) => Err(error),
    }
}

/// The work of documenting a target, or why there is none.
pub open spec fn rustdoc_unit(cx: Context, pkg: int, target: int) -> Result<UnitView, ErrorView> {
    match rustdoc_command(cx, pkg, target) {
        Ok(command) => Ok(
            UnitView {
                work: WorkView::Rustdoc(
                    ToolView { command, primary: cx.primary, name: cx.package(pkg).name@ },
                ),
                kind: Kind::KindTarget,
                desc: DescriptionView::Command(command),
            },
        ),
        Err(error) => Err(error),
    }
}

/// The work of documenting a target.
pub fn rustdoc(package: usize, target: usize, cx: &Context) -> (unit: Result<Unit, CargoError>)
    requires
        cx.wf(),
        cx.has_target(package as int, target as int),
    ensures
        match (unit, rustdoc_unit(*cx, package as int, target as int)) {
            (Ok(unit), Ok(expected)) => unit@ == expected,
            (Err(error), Err(why)) => error@ == why,
            _ => false,
        },
{
    let kind = Kind::KindTarget;
    let pkg = &cx.ws.packages[package];
    let documented = &pkg.targets[target];
    let output = cx.layout(kind).dest.join("doc".as_bytes());
    let rustdoc = process("rustdoc".as_bytes(), package, cx).cwd(pkg.root.clone());
    let rustdoc = rustdoc.arg(documented.src_path.repr.as_slice());
    let rustdoc = with_flag(rustdoc, "-o", output.repr.as_slice());
    let rustdoc = with_flag(rustdoc, "--crate-name", documented.name.as_str().as_bytes());
    let command = match build_deps_args(rustdoc, target, package, cx, kind) {
        Ok(cmd) => cmd,
        Err(error) => return Err(error),
    };
    assert(command@ =~= rustdoc_command(*cx, package as int, target as int)->Ok_0);
    let desc = Description::Command(command.clone());
    let work = Work::Rustdoc(ToolRun { command, primary: cx.primary, name: pkg.name.clone() });
    Ok(Unit { work, kind, desc })
}

/// A target is compiled once, or twice where it is needed both as a plugin and on a platform that
/// is not the host; for no kind is it compiled twice.
pub proof fn law_kinds(cx: Context, req: PlatformRequirement)
    ensures
        kinds(cx, req).no_duplicates(),
        1 <= kinds(cx, req).len() <= 2,
        kinds(cx, req).len() == 2 <==> req == PlatformRequirement::PluginAndTarget
            && cx.ws.config.target is Some,
{
}

/// A target is compiled for the platform that is built for unless it is needed as a plugin only, and
/// as a plugin if it is needed as one only, or as one too and the platform is not the host; the
/// platform comes first.
pub proof fn law_kinds_that_are_needed(cx: Context, req: PlatformRequirement)
    ensures
        kinds(cx, req).contains(Kind::KindTarget) <==> req != PlatformRequirement::Plugin,
        kinds(cx, req).contains(Kind::KindPlugin) <==> (req == PlatformRequirement::Plugin || (req
            == PlatformRequirement::PluginAndTarget && cx.ws.config.target is Some)),
        kinds(cx, req).contains(Kind::KindTarget) ==> kinds(cx, req)[0] == Kind::KindTarget,
{
    let all = kinds(cx, req);
    if req == PlatformRequirement::Target {
        assert(all[0] == Kind::KindTarget);
    } else if req == PlatformRequirement::Plugin {
        assert(all[0] == Kind::KindPlugin);
    } else {
        assert(all[0] == Kind::KindTarget);
        if cx.ws.config.target is Some {
            assert(all[1] == Kind::KindPlugin);
        }
    }
}

/// A target can be compiled exactly where the arguments for its dependencies can be had, and
/// otherwise it fails as they do.
pub proof fn law_compiling_fails_as_links_do(
    cx: Context,
    pkg: int,
    target: int,
    req: PlatformRequirement,
    kind: Kind,
)
    ensures
        rustc_units(cx, pkg, target, req) is Ok <==> deps_args(cx, pkg, target, kind) is Ok,
        rustc_units(cx, pkg, target, req) is Err ==> rustc_units(cx, pkg, target, req)->Err_0
            == deps_args(cx, pkg, target, kind)->Err_0,
{
    law_links_fail_alike(cx, pkg, target, Kind::KindTarget, kind);
}

/// For each kind that is needed the compiler is run once, on behalf of the package: it is told about
/// the target, then about the results of that kind, then about dependencies. The run is reported
/// under the name of the package, and it is shown by its command line.
pub proof fn law_runs_of_the_compiler(
    cx: Context,
    pkg: int,
    target: int,
    req: PlatformRequirement,
    i: int,
)
    requires
        rustc_units(cx, pkg, target, req) is Ok,
        0 <= i < kinds(cx, req).len(),
    ensures
        rustc_units(cx, pkg, target, req)->Ok_0.len() == kinds(cx, req).len(),
        ({
            let unit = rustc_units(cx, pkg, target, req)->Ok_0[i];
            let kind = kinds(cx, req)[i];
            let own = cx.ws.packages@[pkg].targets@[target];
            let command = unit.work->Rustc_0.command;
            &&& unit.kind == kind
            &&& unit.work is Rustc
            &&& unit.work->Rustc_0.primary == cx.primary
            &&& unit.work->Rustc_0.name == cx.ws.packages@[pkg].name@
            &&& unit.desc == DescriptionView::Command(command)
            &&& command.program == utf8("rustc"@)
            &&& command.env == tool(cx, utf8("rustc"@), pkg).env
            &&& command.cwd == cx.data.packages@[pkg].process_cwd@
            &&& command.args == base_args(cx, own, own.crate_types@) + plugin_args(
                cx,
                pkg,
                target,
                kind,
            ) + deps_args(cx, pkg, target, kind)->Ok_0
        }),
{
    law_links_fail_alike(cx, pkg, target, Kind::KindTarget, kinds(cx, req)[i]);
    let unit = rustc_units(cx, pkg, target, req)->Ok_0[i];
    let kind = kinds(cx, req)[i];
    let own = cx.ws.packages@[pkg].targets@[target];
    assert(unit.work->Rustc_0.command.args =~= base_args(cx, own, own.crate_types@) + plugin_args(
        cx,
        pkg,
        target,
        kind,
    ) + deps_args(cx, pkg, target, kind)->Ok_0);
}

/// The documentation tool is run in the directory of the package, on the source file of the target;
/// it is told where the documentation goes, the name of the target, and then about dependencies.
pub proof fn law_run_of_the_documentation_tool(cx: Context, pkg: int, target: int)
    ensures
        rustdoc_unit(cx, pkg, target) is Ok <==> deps_args(cx, pkg, target, Kind::KindTarget) is Ok,
        rustdoc_unit(cx, pkg, target) is Err ==> rustdoc_unit(cx, pkg, target)->Err_0 == deps_args(
            cx,
            pkg,
            target,
            Kind::KindTarget,
        )->Err_0,
        rustdoc_unit(cx, pkg, target) is Ok ==> {
            let unit = rustdoc_unit(cx, pkg, target)->Ok_0;
            let own = cx.ws.packages@[pkg].targets@[target];
            let command = unit.work->Rustdoc_0.command;
            &&& unit.kind == Kind::KindTarget
            &&& unit.work is Rustdoc
            &&& unit.work->Rustdoc_0.primary == cx.primary
            &&& unit.work->Rustdoc_0.name == cx.ws.packages@[pkg].name@
            &&& unit.desc == DescriptionView::Command(command)
            &&& command.program == utf8("rustdoc"@)
            &&& command.env == tool(cx, utf8("rustdoc"@), pkg).env
            &&& command.cwd == cx.ws.packages@[pkg].root@
            &&& command.args.len() >= 5
            &&& command.args[0] == own.src_path@
            &&& command.args[1] == utf8("-o"@)
            &&& command.args[2] == joined(cx.layout_of(Kind::KindTarget).dest@, utf8("doc"@))
            &&& command.args[3] == utf8("--crate-name"@)
            &&& command.args[4] == utf8(own.name@)
            &&& command.args.skip(5) == deps_args(cx, pkg, target, Kind::KindTarget)->Ok_0
        },
{
    if rustdoc_unit(cx, pkg, target) is Ok {
        let command = rustdoc_unit(cx, pkg, target)->Ok_0.work->Rustdoc_0.command;
        assert(command.args.skip(5) =~= deps_args(cx, pkg, target, Kind::KindTarget)->Ok_0);
    }
}

} // verus!
