use cargo::context::{
    Context, ContextData, Kind, Layout, Layouts, PackageData, PlatformRequirement, TargetData,
};
use cargo::error::CargoError;
use cargo::ops::cargo_rustc::args::{build_base_args, build_plugin_args};
use cargo::ops::cargo_rustc::compile::compile;
use cargo::ops::cargo_rustc::custom::compile_custom;
use cargo::ops::cargo_rustc::deps::{build_deps_args, link_to, LinkReason};
use cargo::ops::cargo_rustc::plan::plan;
use cargo::ops::cargo_rustc::process;
use cargo::ops::cargo_rustc::script::{Script, Stage};
use cargo::ops::cargo_rustc::targets::{
    dests_agree, BuildAction, BuildEvent, BuildState, Outcome,
};
use cargo::ops::cargo_rustc::uniq_target_dest;
use cargo::ops::cargo_rustc::units::{prepare_rustc, rustc, rustdoc};
use cargo::ops::cargo_rustc::work::{Description, Freshness, Prepare, Work};
use cargo::ops::compile_targets;
use cargo::package::{Config, Metadata, Package, Profile, Resolve, Target, Workspace};
use cargo::path::Path;
use cargo::process_builder::ProcessBuilder;

const APP: usize = 0;
const LIB_A: usize = 1;
const LIB_B: usize = 2;

fn path(text: &str) -> Path {
    Path { repr: text.as_bytes().to_vec() }
}

fn profile(env: &str) -> Profile {
    Profile {
        env: env.to_string(),
        opt_level: 0,
        debug: true,
        test: false,
        harness: true,
        doc: false,
        compile: env == "compile",
        plugin: false,
        dest: None,
    }
}

fn lib(name: &str) -> Target {
    Target {
        name: name.to_string(),
        src_path: path(&format!("/src/{}/lib.rs", name)),
        metadata: None,
        profile: profile("compile"),
        crate_types: vec!["lib".to_string()],
        lib: true,
        bin: false,
        staticlib: false,
    }
}

fn bin(name: &str) -> Target {
    Target {
        crate_types: vec!["bin".to_string()],
        src_path: path(&format!("/src/{}/main.rs", name)),
        lib: false,
        bin: true,
        ..lib(name)
    }
}

fn package(name: &str, targets: Vec<Target>) -> Package {
    Package {
        name: name.to_string(),
        display: format!("{} v1.0.0", name),
        root: path(&format!("/src/{}", name)),
        target_dir: path("/app/target"),
        build: Vec::new(),
        targets,
    }
}

/// A program that depends on two libraries, of which the first depends on the second.
fn workspace() -> Workspace {
    Workspace {
        env: "compile".to_string(),
        packages: vec![
            package("app", vec![lib("applib"), bin("app")]),
            package("lib-a", vec![lib("a")]),
            package("lib-b", vec![lib("b")]),
        ],
        resolve: Resolve {
            root: APP,
            deps: vec![Some(vec![LIB_A, LIB_B]), Some(vec![LIB_B]), None],
        },
        config: Config { target: None, ar: None, linker: None },
    }
}

fn layout(base: &str, root: &str) -> Layout {
    let dirs = |kind: &str| {
        (0..3).map(|i| path(&format!("{}/{}/{}", base, kind, i))).collect::<Vec<Path>>()
    };
    Layout {
        root: path(root),
        dest: path(base),
        deps: path(&format!("{}/deps", base)),
        native: dirs("native"),
        old_native: dirs("old-native"),
    }
}

fn layouts(base: &str) -> Layouts {
    Layouts {
        dependencies: layout(base, &format!("{}/deps", base)),
        primary: layout(base, base),
    }
}

fn target_data(file: &str) -> TargetData {
    TargetData {
        relevant: true,
        requirement: PlatformRequirement::Target,
        filenames: Ok(vec![file.to_string()]),
        plugin_dep_info: path(&format!("/fp/plugin-{}", file)),
        target_dep_info: path(&format!("/fp/{}", file)),
    }
}

fn package_data(name: &str, dep_targets: Vec<(usize, usize)>, files: &[&str]) -> PackageData {
    PackageData {
        dep_targets,
        process_env: vec![("PKG".to_string(), Some(name.as_bytes().to_vec()))],
        process_cwd: path(&format!("/src/{}", name)),
        targets: files.iter().map(|file| target_data(file)).collect(),
    }
}

fn data() -> ContextData {
    ContextData {
        target_triple: "x86_64".to_string(),
        dylib_envvar: "LD_LIBRARY_PATH".to_string(),
        search_path: vec![path("/usr/lib")],
        plugin_layouts: layouts("/host"),
        target_layouts: layouts("/out"),
        packages: vec![
            package_data("app", vec![(LIB_A, 0), (LIB_B, 0)], &["libapplib.rlib", "app"]),
            package_data("lib-a", vec![(LIB_B, 0)], &["liba.rlib"]),
            package_data("lib-b", Vec::new(), &["libb.rlib"]),
        ],
    }
}

fn strings(args: &[Vec<u8>]) -> Vec<String> {
    args.iter().map(|arg| String::from_utf8(arg.clone()).unwrap()).collect()
}

/// The value that counts for a variable.
fn env(command: &ProcessBuilder, key: &str) -> Option<String> {
    let entry = command.env.iter().rev().find(|entry| entry.0 == key);
    entry.map(|entry| String::from_utf8(entry.1.clone().unwrap()).unwrap())
}

fn blank() -> ProcessBuilder {
    ProcessBuilder { program: Vec::new(), args: Vec::new(), env: Vec::new(), cwd: path("/") }
}

fn broken(text: &str) -> CargoError {
    CargoError::Message { description: text.to_string(), is_human: false, cause: None }
}

#[test]
fn fixtures_fit() {
    let ws = workspace();
    assert!(ws.check());
    assert!(data().check(&ws));
}

#[test]
fn a_workspace_with_a_missing_package_is_found_out() {
    let mut ws = workspace();
    ws.resolve.deps[1] = Some(vec![7]);
    assert!(!ws.check());
    let mut ws = workspace();
    ws.resolve.root = 3;
    assert!(!ws.check());
    let mut ws = workspace();
    ws.resolve.deps.pop();
    assert!(!ws.check());
}

#[test]
fn knowledge_that_does_not_fit_is_found_out() {
    let ws = workspace();
    let mut wrong = data();
    wrong.packages[0].dep_targets.push((1, 5));
    assert!(!wrong.check(&ws));
    let mut wrong = data();
    wrong.packages[0].targets.pop();
    assert!(!wrong.check(&ws));
    let mut wrong = data();
    wrong.packages.pop();
    assert!(!wrong.check(&ws));
    let mut wrong = data();
    wrong.target_layouts.primary.native.pop();
    assert!(!wrong.check(&ws));
    let mut wrong = data();
    wrong.search_path.push(path("/a:b"));
    assert!(!wrong.check(&ws));
    let mut wrong = data();
    wrong.plugin_layouts.primary.deps = path("/a:b");
    assert!(!wrong.check(&ws));
}

#[test]
fn tools_find_the_dependencies_of_plugins() {
    let ws = workspace();
    let data = data();
    let cx = Context { ws: &ws, data: &data, primary: true };
    let command = process(b"rustc", LIB_A, &cx);
    assert_eq!(command.program, b"rustc".to_vec());
    assert!(command.args.is_empty());
    assert_eq!(command.cwd, path("/src/lib-a"));
    assert_eq!(env(&command, "LD_LIBRARY_PATH").unwrap(), "/usr/lib:/host/deps");
    assert_eq!(env(&command, "PKG").unwrap(), "lib-a");
}

#[test]
fn tools_override_the_search_path_of_the_package() {
    let ws = workspace();
    let mut data = data();
    data.packages[APP]
        .process_env
        .push(("LD_LIBRARY_PATH".to_string(), Some(b"/elsewhere".to_vec())));
    let cx = Context { ws: &ws, data: &data, primary: false };
    let command = process(b"rustc", APP, &cx);
    assert_eq!(env(&command, "LD_LIBRARY_PATH").unwrap(), "/usr/lib:/host/deps");
}

#[test]
fn base_arguments_of_a_plain_target() {
    let ws = workspace();
    let data = data();
    let cx = Context { ws: &ws, data: &data, primary: true };
    let target = &ws.packages[LIB_A].targets[0];
    let types = vec!["rlib".to_string(), "dylib".to_string()];
    let command = build_base_args(&cx, blank(), target, &types);
    assert_eq!(
        strings(&command.args),
        [
            "/src/a/lib.rs", "--crate-name", "a", "--crate-type", "rlib", "--crate-type", "dylib",
            "-g"
        ]
    );
}

#[test]
fn base_arguments_of_a_test_with_metadata() {
    let mut ws = workspace();
    let data = data();
    let target = &mut ws.packages[APP].targets[1];
    target.profile.env = "test".to_string();
    target.profile.test = true;
    target.profile.opt_level = 12;
    target.profile.debug = false;
    target.metadata = Some(Metadata { metadata: "m1".to_string(), extra_filename: "-x".to_string() });
    let cx = Context { ws: &ws, data: &data, primary: true };
    let target = &ws.packages[APP].targets[1];
    let command = build_base_args(&cx, blank(), target, &Vec::new());
    assert_eq!(
        strings(&command.args),
        [
            "/src/app/main.rs", "--crate-name", "app", "--opt-level", "12", "--cfg", "ndebug",
            "--test", "-C", "metadata=m1", "-C", "extra-filename=-x"
        ]
    );
}

#[test]
fn a_test_without_harness_is_built_as_a_program() {
    let mut ws = workspace();
    let data = data();
    ws.packages[APP].targets[1].profile.test = true;
    ws.packages[APP].targets[1].profile.harness = false;
    let cx = Context { ws: &ws, data: &data, primary: true };
    let command = build_base_args(&cx, blank(), &ws.packages[APP].targets[1], &Vec::new());
    assert_eq!(strings(&command.args), ["/src/app/main.rs", "--crate-name", "app", "-g"]);
}

#[test]
fn the_settings_of_the_root_package_count() {
    let mut ws = workspace();
    let data = data();
    for target in ws.packages[APP].targets.iter_mut() {
        target.profile.opt_level = 1;
    }
    // The last target of the root package that is built for the same thing decides.
    ws.packages[APP].targets[1].profile.opt_level = 3;
    ws.packages[APP].targets[1].profile.debug = false;
    let cx = Context { ws: &ws, data: &data, primary: false };
    let command = build_base_args(&cx, blank(), &ws.packages[LIB_A].targets[0], &Vec::new());
    assert_eq!(
        strings(&command.args),
        ["/src/a/lib.rs", "--crate-name", "a", "--opt-level", "3", "--cfg", "ndebug"]
    );
}

#[test]
fn a_target_keeps_its_own_settings_where_the_root_package_has_none() {
    let mut ws = workspace();
    let data = data();
    ws.packages[APP].targets[0].profile.opt_level = 3;
    ws.packages[LIB_A].targets[0].profile.env = "bench".to_string();
    ws.packages[LIB_A].targets[0].profile.opt_level = 1;
    let cx = Context { ws: &ws, data: &data, primary: false };
    let command = build_base_args(&cx, blank(), &ws.packages[LIB_A].targets[0], &Vec::new());
    assert_eq!(
        strings(&command.args),
        ["/src/a/lib.rs", "--crate-name", "a", "--opt-level", "1", "-g"]
    );
}

#[test]
fn each_file_of_a_library_is_named() {
    let ws = workspace();
    let mut data = data();
    data.packages[LIB_B].targets[0].filenames =
        Ok(vec!["libb.rlib".to_string(), "libb.so".to_string()]);
    let cx = Context { ws: &ws, data: &data, primary: false };
    let command = build_deps_args(blank(), 0, LIB_A, &cx, Kind::KindTarget).unwrap();
    assert_eq!(
        strings(&command.args)[4..],
        ["--extern", "b=/out/deps/libb.rlib", "--extern", "b=/out/deps/libb.so"]
    );
}

#[test]
fn a_build_command_keeps_its_variables_whatever_its_dependencies_are_called() {
    let mut ws = workspace();
    ws.packages[LIB_B].name = "out".to_string();
    let data = data();
    let cx = Context { ws: &ws, data: &data, primary: false };
    let work = compile_custom(LIB_A, "make", &cx, false).unwrap();
    let custom = match work {
        Work::Custom(custom) => custom,
        _ => panic!(),
    };
    assert_eq!(env(&custom.command, "OUT_DIR").unwrap(), "/out/native/1");
    assert_eq!(env(&custom.command, "DEP_OUT_OUT_DIR").unwrap(), "/out/native/2");
}

#[test]
fn all_that_was_asked_for_has_a_job() {
    let ws = workspace();
    let data = data();
    let cx = Context { ws: &ws, data: &data, primary: false };
    let (script, error) = plan(&cx, APP, &vec![0, 1]);
    assert_eq!(error, None);
    let kind = Kind::KindTarget;
    let expected = [
        (LIB_A, 0, Stage::StageLibraries),
        (LIB_B, 0, Stage::StageLibraries),
        (APP, 0, Stage::StageLibraries),
        (APP, 1, Stage::StageBinaries),
    ];
    for (pkg, target, stage) in expected {
        let fresh = Prepare::Target { pkg, target, kind };
        assert!(script.stages.iter().any(|queued| {
            queued.pkg == pkg
                && queued.stage == stage
                && queued.jobs.iter().any(|job| job.fresh == fresh)
        }));
    }
    for stage in &script.stages {
        for job in &stage.jobs {
            assert_eq!(job.dirty.last(), Some(&Work::Fingerprint(job.fresh)));
        }
    }
}

#[test]
fn arguments_for_results_of_a_kind() {
    let mut ws = workspace();
    ws.config = Config {
        target: Some("arm".to_string()),
        ar: Some("arm-ar".to_string()),
        linker: Some("arm-ld".to_string()),
    };
    let data = data();
    let cx = Context { ws: &ws, data: &data, primary: false };
    let command = build_plugin_args(blank(), &cx, LIB_A, 0, Kind::KindTarget);
    assert_eq!(
        strings(&command.args),
        [
            "--out-dir", "/out/deps", "--dep-info", "/fp/liba.rlib", "--target", "arm", "-C",
            "ar=arm-ar", "-C", "linker=arm-ld"
        ]
    );
    let command = build_plugin_args(blank(), &cx, LIB_A, 0, Kind::KindPlugin);
    assert_eq!(
        strings(&command.args),
        ["--out-dir", "/host/deps", "--dep-info", "/fp/plugin-liba.rlib"]
    );
    let primary = Context { ws: &ws, data: &data, primary: true };
    let command = build_plugin_args(blank(), &primary, LIB_A, 0, Kind::KindPlugin);
    assert_eq!(strings(&command.args)[1], "/host");
}

#[test]
fn arguments_for_dependencies_of_a_program() {
    let ws = workspace();
    let data = data();
    let cx = Context { ws: &ws, data: &data, primary: true };
    let command = build_deps_args(blank(), 1, APP, &cx, Kind::KindTarget).unwrap();
    assert_eq!(
        strings(&command.args),
        [
            "-L", "/out", "-L", "/out/deps", "--extern", "a=/out/deps/liba.rlib", "--extern",
            "b=/out/deps/libb.rlib", "--extern", "applib=/out/libapplib.rlib"
        ]
    );
}

#[test]
fn a_library_is_not_linked_to_its_own_package() {
    let ws = workspace();
    let data = data();
    let cx = Context { ws: &ws, data: &data, primary: true };
    let command = build_deps_args(blank(), 0, APP, &cx, Kind::KindTarget).unwrap();
    assert_eq!(strings(&command.args).len(), 8);
}

#[test]
fn a_program_is_not_linked_to_static_or_uncompiled_libraries() {
    let data = data();
    let mut ws = workspace();
    ws.packages[APP].targets[0].staticlib = true;
    let cx = Context { ws: &ws, data: &data, primary: true };
    let command = build_deps_args(blank(), 1, APP, &cx, Kind::KindTarget).unwrap();
    assert_eq!(strings(&command.args).len(), 8);
    let mut ws = workspace();
    ws.packages[APP].targets[0].profile.compile = false;
    let cx = Context { ws: &ws, data: &data, primary: true };
    let command = build_deps_args(blank(), 1, APP, &cx, Kind::KindTarget).unwrap();
    assert_eq!(strings(&command.args).len(), 8);
}

#[test]
fn native_directories_are_searched_once_in_the_order_of_the_visit() {
    let mut ws = workspace();
    for pkg in ws.packages.iter_mut() {
        pkg.build = vec!["make".to_string()];
    }
    let mut data = data();
    for pkg in data.packages.iter_mut() {
        pkg.dep_targets.clear();
    }
    let cx = Context { ws: &ws, data: &data, primary: true };
    let command = build_deps_args(blank(), 0, APP, &cx, Kind::KindTarget).unwrap();
    assert_eq!(
        strings(&command.args)[4..],
        ["-L", "/out/native/0", "-L", "/out/native/1", "-L", "/out/native/2"]
    );
}

#[test]
fn native_directories_of_packages_without_build_commands_are_left_out() {
    let mut ws = workspace();
    ws.packages[LIB_B].build = vec!["make".to_string()];
    // A circle does no harm.
    ws.resolve.deps[LIB_B] = Some(vec![APP]);
    let mut data = data();
    data.packages[APP].dep_targets.clear();
    let cx = Context { ws: &ws, data: &data, primary: true };
    let command = build_deps_args(blank(), 0, APP, &cx, Kind::KindPlugin).unwrap();
    assert_eq!(strings(&command.args)[4..], ["-L", "/host/native/2"]);
}

#[test]
fn plugins_are_linked_from_the_plugin_directory() {
    let mut ws = workspace();
    let data = data();
    let cx = Context { ws: &ws, data: &data, primary: false };
    let dep = LinkReason::Dependency;
    let local = LinkReason::LocalLib;
    let location = |cx: &Context, kind, reason| {
        strings(&link_to(blank(), LIB_A, 0, cx, kind, reason).unwrap().args)
    };
    assert_eq!(location(&cx, Kind::KindTarget, dep), ["--extern", "a=/out/deps/liba.rlib"]);
    assert_eq!(location(&cx, Kind::KindPlugin, dep), ["--extern", "a=/host/deps/liba.rlib"]);
    ws.packages[LIB_A].targets[0].profile.plugin = true;
    let cx = Context { ws: &ws, data: &data, primary: true };
    assert_eq!(location(&cx, Kind::KindTarget, dep), ["--extern", "a=/host/deps/liba.rlib"]);
    assert_eq!(location(&cx, Kind::KindTarget, local), ["--extern", "a=/host/liba.rlib"]);
}

#[test]
fn the_first_library_without_files_is_the_error() {
    let ws = workspace();
    let mut data = data();
    data.packages[LIB_A].targets[0].filenames = Err(broken("no a"));
    data.packages[LIB_B].targets[0].filenames = Err(broken("no b"));
    let cx = Context { ws: &ws, data: &data, primary: true };
    for kind in [Kind::KindTarget, Kind::KindPlugin] {
        let result = build_deps_args(blank(), 1, APP, &cx, kind);
        assert_eq!(result, Err(broken("no a")));
    }
}

#[test]
fn a_target_is_compiled_twice_only_across_platforms() {
    let mut ws = workspace();
    let data = data();
    let kinds = |ws: &Workspace, req| {
        let cx = Context { ws, data: &data, primary: true };
        let commands = prepare_rustc(LIB_A, 0, &Vec::new(), &cx, req).unwrap();
        commands.iter().map(|command| command.1).collect::<Vec<Kind>>()
    };
    assert_eq!(kinds(&ws, PlatformRequirement::Target), [Kind::KindTarget]);
    assert_eq!(kinds(&ws, PlatformRequirement::Plugin), [Kind::KindPlugin]);
    assert_eq!(kinds(&ws, PlatformRequirement::PluginAndTarget), [Kind::KindTarget]);
    ws.config.target = Some("arm".to_string());
    assert_eq!(
        kinds(&ws, PlatformRequirement::PluginAndTarget),
        [Kind::KindTarget, Kind::KindPlugin]
    );
}

#[test]
fn the_work_of_compiling_a_target() {
    let ws = workspace();
    let data = data();
    let cx = Context { ws: &ws, data: &data, primary: false };
    let units = rustc(LIB_B, 0, &cx, PlatformRequirement::Target).unwrap();
    assert_eq!(units.len(), 1);
    assert_eq!(units[0].kind, Kind::KindTarget);
    let run = match &units[0].work {
        Work::Rustc(run) => run,
        _ => panic!(),
    };
    assert!(!run.primary);
    assert_eq!(run.name, "lib-b");
    assert_eq!(run.command.program, b"rustc".to_vec());
    assert_eq!(
        strings(&run.command.args),
        [
            "/src/b/lib.rs", "--crate-name", "b", "--crate-type", "lib", "-g", "--out-dir",
            "/out/deps", "--dep-info", "/fp/libb.rlib", "-L", "/out/deps", "-L", "/out/deps"
        ]
    );
    assert_eq!(units[0].desc, Description::Command(run.command.clone()));
}

#[test]
fn the_work_of_documenting_a_target() {
    let ws = workspace();
    let data = data();
    let cx = Context { ws: &ws, data: &data, primary: true };
    let unit = rustdoc(LIB_A, 0, &cx).unwrap();
    let run = match &unit.work {
        Work::Rustdoc(run) => run,
        _ => panic!(),
    };
    assert!(run.primary);
    assert_eq!(unit.kind, Kind::KindTarget);
    assert_eq!(run.command.program, b"rustdoc".to_vec());
    assert_eq!(run.command.cwd, path("/src/lib-a"));
    assert_eq!(
        strings(&run.command.args),
        [
            "/src/a/lib.rs", "-o", "/out/doc", "--crate-name", "a", "-L", "/out", "-L",
            "/out/deps", "--extern", "b=/out/deps/libb.rlib"
        ]
    );
}

#[test]
fn the_work_of_a_build_command() {
    let mut ws = workspace();
    ws.packages[APP].targets[0].profile.opt_level = 2;
    let mut data = data();
    data.packages[LIB_A].dep_targets = vec![(LIB_B, 0), (APP, 0)];
    let cx = Context { ws: &ws, data: &data, primary: false };
    let work = compile_custom(LIB_A, "make  all", &cx, true).unwrap();
    let custom = match work {
        Work::Custom(custom) => custom,
        _ => panic!(),
    };
    assert!(custom.first);
    assert_eq!(custom.output, path("/out/native/1"));
    assert_eq!(custom.old_output, path("/out/old-native/1"));
    assert_eq!(custom.package, "lib-a v1.0.0");
    assert_eq!(custom.command.program, b"make".to_vec());
    assert_eq!(strings(&custom.command.args), ["", "all"]);
    let value = |key| env(&custom.command, key).unwrap();
    assert_eq!(value("OUT_DIR"), "/out/native/1");
    assert_eq!(value("DEPS_DIR"), "/out/native/1");
    assert_eq!(value("TARGET"), "x86_64");
    assert_eq!(value("DEBUG"), "true");
    assert_eq!(value("OPT_LEVEL"), "2");
    assert_eq!(value("PROFILE"), "compile");
    assert_eq!(value("DEP_LIB_B_OUT_DIR"), "/out/native/2");
    assert_eq!(value("DEP_APP_OUT_DIR"), "/out/native/0");
    assert_eq!(value("LD_LIBRARY_PATH"), "/usr/lib:/host/deps");
}

#[test]
fn a_build_command_needs_a_profile_of_the_root_package() {
    let mut ws = workspace();
    ws.env = "bench".to_string();
    let data = data();
    let cx = Context { ws: &ws, data: &data, primary: false };
    assert_eq!(compile_custom(LIB_A, "make", &cx, true), Err(broken("no profile for bench")));
}

#[test]
fn one_package_goes_through_its_stages() {
    let mut ws = workspace();
    ws.packages[APP].build = vec!["a".to_string(), "b c".to_string()];
    let data = data();
    let cx = Context { ws: &ws, data: &data, primary: true };
    let mut script = Script::new();
    assert_eq!(compile(&vec![1, 0], APP, &cx, &mut script), Ok(()));
    let kind = Kind::KindTarget;
    assert_eq!(
        script.questions,
        [
            Prepare::Init { pkg: APP, kind },
            Prepare::BuildCmd { pkg: APP },
            Prepare::Target { pkg: APP, target: 1, kind },
            Prepare::Target { pkg: APP, target: 0, kind },
        ]
    );
    let stages: Vec<Stage> = script.stages.iter().map(|stage| stage.stage).collect();
    assert_eq!(
        stages,
        [
            Stage::StageStart,
            Stage::StageCustomBuild,
            Stage::StageLibraries,
            Stage::StageBinaries,
            Stage::StageEnd,
        ]
    );
    let custom = &script.stages[1].jobs[0];
    assert_eq!(custom.desc, Description::Text("custom build commands".to_string()));
    assert_eq!(custom.question, Some(1));
    assert_eq!(custom.dirty.len(), 3);
    assert!(matches!(&custom.dirty[0], Work::Custom(work) if work.first));
    assert!(matches!(&custom.dirty[1], Work::Custom(work) if !work.first));
    assert_eq!(custom.dirty[2], Work::Fingerprint(Prepare::BuildCmd { pkg: APP }));
    assert_eq!(script.stages[2].jobs.len(), 1);
    assert_eq!(script.stages[2].jobs[0].question, Some(3));
    assert_eq!(script.stages[3].jobs.len(), 1);
    let job = &script.stages[3].jobs[0];
    assert_eq!(job.question, Some(2));
    assert_eq!(job.fresh, Prepare::Target { pkg: APP, target: 1, kind });
    assert_eq!(job.dirty[1], Work::Fingerprint(job.fresh));
    assert!(script.stages[4].jobs.is_empty());
}

#[test]
fn a_package_has_fingerprints_for_plugins_across_platforms() {
    let mut ws = workspace();
    ws.config.target = Some("arm".to_string());
    let data = data();
    let cx = Context { ws: &ws, data: &data, primary: true };
    let mut script = Script::new();
    assert_eq!(compile(&vec![0], LIB_A, &cx, &mut script), Ok(()));
    assert_eq!(
        script.questions[..2],
        [
            Prepare::Init { pkg: LIB_A, kind: Kind::KindTarget },
            Prepare::Init { pkg: LIB_A, kind: Kind::KindPlugin },
        ]
    );
    assert_eq!(script.stages[0].jobs.len(), 2);
    assert_eq!(script.stages[0].jobs[0].question, None);
}

#[test]
fn one_build_command_is_shown_as_it_is() {
    let mut ws = workspace();
    ws.packages[LIB_A].build = vec!["make all".to_string()];
    let data = data();
    let cx = Context { ws: &ws, data: &data, primary: false };
    let mut script = Script::new();
    assert_eq!(compile(&vec![0], LIB_A, &cx, &mut script), Ok(()));
    let desc = &script.stages[1].jobs[0].desc;
    assert_eq!(*desc, Description::Text("make all".to_string()));
    let mut script = Script::new();
    assert_eq!(compile(&vec![0], LIB_B, &cx, &mut script), Ok(()));
    assert_eq!(script.stages[1].jobs[0].desc, Description::Text(String::new()));
}

#[test]
fn no_targets_are_no_work() {
    let ws = workspace();
    let data = data();
    let cx = Context { ws: &ws, data: &data, primary: true };
    let mut script = Script::new();
    assert_eq!(compile(&Vec::new(), APP, &cx, &mut script), Ok(()));
    assert_eq!(script, Script::new());
}

#[test]
fn a_documented_target_is_not_compiled() {
    let mut ws = workspace();
    ws.packages[APP].targets[0].profile.doc = true;
    let data = data();
    let cx = Context { ws: &ws, data: &data, primary: true };
    let mut script = Script::new();
    assert_eq!(compile(&vec![0], APP, &cx, &mut script), Ok(()));
    assert!(matches!(script.stages[2].jobs[0].dirty[0], Work::Rustdoc(_)));
}

#[test]
fn a_package_that_cannot_be_planned_has_asked_before() {
    let ws = workspace();
    let mut data = data();
    data.packages[LIB_B].targets[0].filenames = Err(broken("no b"));
    let cx = Context { ws: &ws, data: &data, primary: true };
    let mut script = Script::new();
    assert_eq!(compile(&vec![0], LIB_A, &cx, &mut script), Err(broken("no b")));
    assert_eq!(
        script.questions,
        [
            Prepare::Init { pkg: LIB_A, kind: Kind::KindTarget },
            Prepare::BuildCmd { pkg: LIB_A },
        ]
    );
}

#[test]
fn the_package_that_was_asked_for_comes_last() {
    let ws = workspace();
    let data = data();
    let cx = Context { ws: &ws, data: &data, primary: false };
    let (script, error) = plan(&cx, APP, &vec![0, 1]);
    assert_eq!(error, None);
    let order: Vec<usize> = script.stages.iter().map(|stage| stage.pkg).collect();
    assert_eq!(order, [1, 1, 1, 1, 1, 2, 2, 2, 2, 2, 0, 0, 0, 0, 0]);
    for stage in &script.stages {
        for job in &stage.jobs {
            if let Some(question) = job.question {
                assert_eq!(script.questions[question], job.fresh);
            }
            if let Work::Rustc(run) = &job.dirty[0] {
                assert_eq!(run.primary, stage.pkg == APP);
            }
        }
    }
}

#[test]
fn only_relevant_targets_of_dependencies_are_built() {
    let mut ws = workspace();
    ws.packages[LIB_A].targets.push(bin("tool"));
    let mut data = data();
    data.packages[LIB_A].targets.push(target_data("tool"));
    data.packages[LIB_A].targets[1].relevant = false;
    let cx = Context { ws: &ws, data: &data, primary: false };
    let (script, error) = plan(&cx, APP, &vec![1]);
    assert_eq!(error, None);
    let kind = Kind::KindTarget;
    assert!(script.questions.contains(&Prepare::Target { pkg: LIB_A, target: 0, kind }));
    assert!(!script.questions.contains(&Prepare::Target { pkg: LIB_A, target: 1, kind }));
    assert!(!script.questions.contains(&Prepare::Target { pkg: APP, target: 0, kind }));
}

#[test]
fn a_dependency_without_libraries_is_an_error() {
    let ws = workspace();
    let mut data = data();
    data.packages[LIB_B].targets[0].relevant = false;
    let cx = Context { ws: &ws, data: &data, primary: false };
    let (script, error) = plan(&cx, APP, &vec![1]);
    assert_eq!(
        error,
        Some(CargoError::Message {
            description: "Package `lib-b v1.0.0` has no library targets".to_string(),
            is_human: true,
            cause: None,
        })
    );
    assert_eq!(script.questions.len(), 3);
}

#[test]
fn the_directory_of_all_targets() {
    let mut ws = workspace();
    ws.packages[APP].targets[0].profile.dest = Some("release".to_string());
    ws.packages[APP].targets[1].profile.dest = Some("release".to_string());
    let targets: Vec<&Target> = ws.packages[APP].targets.iter().collect();
    assert!(dests_agree(&targets));
    assert_eq!(uniq_target_dest(&targets), Some("release"));
    let mixed = vec![&ws.packages[APP].targets[0], &ws.packages[LIB_A].targets[0]];
    assert!(!dests_agree(&mixed));
    let plain = vec![&ws.packages[LIB_A].targets[0]];
    assert_eq!(uniq_target_dest(&plain), None);
}

#[test]
fn a_build_from_beginning_to_end() {
    let mut ws = workspace();
    ws.config.target = Some("arm".to_string());
    for target in ws.packages[APP].targets.iter_mut() {
        target.profile.dest = Some("release".to_string());
    }
    let targets = vec![1];
    let (state, action) =
        compile_targets(&ws, &targets, APP, BuildState::Start, BuildEvent::Begin);
    assert_eq!(
        action,
        BuildAction::Create {
            host: path("/app/target/release"),
            target: Some(path("/app/target/arm/release")),
        }
    );
    let (state, action) =
        compile_targets(&ws, &targets, APP, state, BuildEvent::Created(Ok(())));
    assert_eq!(action, BuildAction::Prepare);
    let (mut state, mut action) =
        compile_targets(&ws, &targets, APP, state, BuildEvent::Prepared(Ok(data())));
    let mut asked = Vec::new();
    while let BuildAction::Ask(question) = action {
        asked.push(question);
        let event = match question {
            Prepare::Init { .. } => BuildEvent::Initialized,
            Prepare::BuildCmd { .. } => BuildEvent::Answered(Ok(Freshness::Fresh)),
            Prepare::Target { pkg, .. } => BuildEvent::Answered(Ok(if pkg == LIB_B {
                Freshness::Fresh
            } else {
                Freshness::Dirty
            })),
        };
        let next = compile_targets(&ws, &targets, APP, state, event);
        state = next.0;
        action = next.1;
    }
    assert_eq!(asked.len(), 12);
    let queue = match action {
        BuildAction::Execute(queue) => queue,
        _ => panic!(),
    };
    assert_eq!(queue.stages.len(), 15);
    for stage in &queue.stages {
        for job in &stage.jobs {
            let expected = match job.fresh {
                Prepare::Target { pkg, .. } if pkg != LIB_B => Freshness::Dirty,
                _ => Freshness::Fresh,
            };
            assert_eq!(job.freshness, expected);
        }
    }
    let (state, action) =
        compile_targets(&ws, &targets, APP, state, BuildEvent::Executed(Ok(())));
    assert_eq!(state, BuildState::Done);
    assert_eq!(action, BuildAction::Finish(Ok(Outcome::Built)));
}

#[test]
fn a_build_without_a_directory_of_its_own() {
    let ws = workspace();
    let (_, action) =
        compile_targets(&ws, &vec![0, 1], APP, BuildState::Start, BuildEvent::Begin);
    assert_eq!(action, BuildAction::Create { host: path("/app/target"), target: None });
}

#[test]
fn a_build_of_nothing_ends_at_once() {
    let ws = workspace();
    let (state, action) =
        compile_targets(&ws, &Vec::new(), APP, BuildState::Start, BuildEvent::Begin);
    assert_eq!(state, BuildState::Done);
    assert_eq!(action, BuildAction::Finish(Ok(Outcome::Nothing)));
}

#[test]
fn the_first_failure_ends_a_build() {
    let ws = workspace();
    let targets = vec![1];
    let asking = || {
        let cx_data = data();
        let (state, _) = compile_targets(
            &ws,
            &targets,
            APP,
            BuildState::Preparing,
            BuildEvent::Prepared(Ok(cx_data)),
        );
        compile_targets(&ws, &targets, APP, state, BuildEvent::Initialized).0
    };
    let cases = vec![
        (BuildState::Creating, BuildEvent::Created(Err(broken("e")))),
        (BuildState::Preparing, BuildEvent::Prepared(Err(broken("e")))),
        (asking(), BuildEvent::Answered(Err(broken("e")))),
        (BuildState::Executing, BuildEvent::Executed(Err(broken("e")))),
    ];
    for (state, event) in cases {
        let (state, action) = compile_targets(&ws, &targets, APP, state, event);
        assert_eq!(state, BuildState::Done);
        assert_eq!(action, BuildAction::Finish(Err(broken("e"))));
    }
}

#[test]
fn an_error_of_the_plan_comes_after_the_questions_before_it() {
    let ws = workspace();
    let targets = vec![1];
    let mut wrong = data();
    wrong.packages[LIB_A].targets[0].filenames = Err(broken("no a"));
    let (mut state, mut action) = compile_targets(
        &ws,
        &targets,
        APP,
        BuildState::Preparing,
        BuildEvent::Prepared(Ok(wrong)),
    );
    let mut asked = 0;
    while let BuildAction::Ask(question) = action {
        asked += 1;
        let event = match question {
            Prepare::Init { .. } => BuildEvent::Initialized,
            _ => BuildEvent::Answered(Ok(Freshness::Dirty)),
        };
        let next = compile_targets(&ws, &targets, APP, state, event);
        state = next.0;
        action = next.1;
    }
    // Both libraries are planned in full, and the program up to its build commands.
    assert_eq!(asked, 8);
    assert_eq!(state, BuildState::Done);
    assert_eq!(action, BuildAction::Finish(Err(broken("no a"))));
}
