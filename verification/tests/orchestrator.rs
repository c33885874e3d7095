use depot::cmd::{Command, CommandInner, CommandRuntime, PkgCommandInfo, WsCommandInfo};
use depot::dep_graph::{build_command_graph, CommandGraph};
use depot::errors::Error;
use depot::fingerprint::{FileInput, Fingerprints, FpEntry};
use depot::fix::{FixArgs, FixCommand};
use depot::package::{build_package_graph, Package, TargetKind};
use depot::process::{pnpm_invocation, success_of, ProcessRegistry};
use depot::scheduler::{ExecPlan, ExecUnit, RunState};
use depot::setup::{advance_progress, pnpm_download_url, GlobalConfig, SetupArgs, SetupCommand};
use depot::workspace::{find_workspace_root, CommonArgs, WorkspaceInner};

fn pkg_cmd(name: &str, deps: Vec<Command>, runtime: CommandRuntime) -> Command {
    Command::new(CommandInner::Package(PkgCommandInfo {
        name: name.to_string(),
        deps,
        runtime,
    }))
}

fn ws_cmd(name: &str) -> Command {
    Command::new(CommandInner::Workspace(WsCommandInfo { name: name.to_string() }))
}

fn package(name: &str, target: TargetKind, index: usize, deps: Vec<&str>) -> Package {
    Package {
        name: name.to_string(),
        root: format!("/ws/{name}"),
        target,
        index,
        deps: deps.into_iter().map(|d| d.to_string()).collect(),
        source_files: vec![format!("/ws/{name}/src/index.ts")],
    }
}

#[test]
fn test_command_graph() {
    let root = FixCommand::new(FixArgs { biome_args: None }).kind();
    let _cmd_graph = build_command_graph(&root).unwrap();
}

#[test]
fn shared_dependency_realized_once() {
    let c = pkg_cmd("c", vec![], CommandRuntime::WaitForDependencies);
    let a = pkg_cmd("a", vec![c.clone()], CommandRuntime::WaitForDependencies);
    let b = pkg_cmd("b", vec![c.clone()], CommandRuntime::WaitForDependencies);
    let root = pkg_cmd("root", vec![a, b], CommandRuntime::WaitForDependencies);
    let g = build_command_graph(&root).unwrap();
    assert_eq!(g.nodes.len(), 4);
    let mut c_nodes = 0;
    for n in &g.nodes {
        if n.name() == "c" {
            c_nodes += 1;
        }
    }
    assert_eq!(c_nodes, 1);
}

#[test]
fn command_graph_order_is_topological() {
    let c = pkg_cmd("c", vec![], CommandRuntime::WaitForDependencies);
    let b = pkg_cmd("b", vec![c.clone()], CommandRuntime::WaitForDependencies);
    let a = pkg_cmd("a", vec![b, c], CommandRuntime::WaitForDependencies);
    let g = build_command_graph(&a).unwrap();
    for (i, row) in g.edges.iter().enumerate() {
        for &d in row {
            assert!(d < i, "a dependency edge must point to an earlier node");
        }
    }
    assert_eq!(g.nodes.last().unwrap().name(), "a");
    assert_eq!(g.nodes.first().unwrap().name(), "c");
}

#[test]
fn cyclic_command_graph_reports_cycle() {
    let a_again = pkg_cmd("a", vec![], CommandRuntime::WaitForDependencies);
    let b = pkg_cmd("b", vec![a_again], CommandRuntime::WaitForDependencies);
    let a = pkg_cmd("a", vec![b], CommandRuntime::WaitForDependencies);
    let r = build_command_graph(&a);
    assert!(matches!(r, Err(Error::CycleError { .. })));
}

#[test]
fn workspace_command_has_no_deps() {
    let w = ws_cmd("init");
    assert_eq!(w.deps().len(), 0);
    assert!(w.runtime().is_none());
    assert_eq!(w.name(), "init");
}

#[test]
fn fingerprint_round_trip() {
    let mut st = Fingerprints::new();
    let files = || vec![
        FileInput { path: b"b.ts".to_vec(), content: b"beta".to_vec() },
        FileInput { path: b"a.ts".to_vec(), content: b"alpha".to_vec() },
    ];
    assert!(!st.check(&b"build-core".to_vec(), files()));
    st.record(b"build-core".to_vec(), files());
    assert!(st.check(&b"build-core".to_vec(), files()));
    // enumeration order does not matter
    let swapped = vec![
        FileInput { path: b"a.ts".to_vec(), content: b"alpha".to_vec() },
        FileInput { path: b"b.ts".to_vec(), content: b"beta".to_vec() },
    ];
    assert!(st.check(&b"build-core".to_vec(), swapped));
}

#[test]
fn fingerprint_invalidated_by_content_change() {
    let mut st = Fingerprints::new();
    st.record(
        b"k".to_vec(),
        vec![FileInput { path: b"a.ts".to_vec(), content: b"alpha".to_vec() }],
    );
    let changed = vec![FileInput { path: b"a.ts".to_vec(), content: b"alpha2".to_vec() }];
    assert!(!st.check(&b"k".to_vec(), changed));
}

#[test]
fn fingerprint_invalidated_by_added_or_removed_file() {
    let mut st = Fingerprints::new();
    st.record(
        b"k".to_vec(),
        vec![FileInput { path: b"a.ts".to_vec(), content: b"alpha".to_vec() }],
    );
    let added = vec![
        FileInput { path: b"a.ts".to_vec(), content: b"alpha".to_vec() },
        FileInput { path: b"b.ts".to_vec(), content: b"beta".to_vec() },
    ];
    assert!(!st.check(&b"k".to_vec(), added));
    let removed: Vec<FileInput> = vec![];
    assert!(!st.check(&b"k".to_vec(), removed));
}

#[test]
fn fingerprint_store_rejects_duplicate_keys() {
    let entries = vec![
        FpEntry { key: b"k".to_vec(), paths: vec![], digest: 1 },
        FpEntry { key: b"k".to_vec(), paths: vec![], digest: 2 },
    ];
    assert!(matches!(Fingerprints::from_entries(entries), Err(Error::CacheError { .. })));
}

#[test]
fn package_graph_order_is_linear_extension() {
    let packages = vec![
        package("app", TargetKind::Site, 0, vec!["core"]),
        package("core", TargetKind::Library, 1, vec![]),
    ];
    let g = build_package_graph(&packages, &vec![0, 1]).unwrap();
    assert!(g.is_dependent_on(0, 1), "app depends on core");
    assert!(!g.is_dependent_on(1, 0), "core does not depend on app");
    let ws = WorkspaceInner::assemble(
        "/ws".to_string(),
        packages,
        true,
        CommonArgs { package: None },
        Fingerprints::new(),
    )
    .unwrap();
    let order = ws.package_display_order();
    assert_eq!(order, &vec![1usize, 0usize], "core (dependency) comes first");
}

#[test]
fn package_graph_unresolved_name_is_config_error() {
    let packages = vec![package("app", TargetKind::Site, 0, vec!["missing"])];
    assert!(matches!(
        build_package_graph(&packages, &vec![0]),
        Err(Error::ConfigError { .. })
    ));
}

#[test]
fn package_graph_cycle_is_cycle_error() {
    let packages = vec![
        package("a", TargetKind::Library, 0, vec!["b"]),
        package("b", TargetKind::Library, 1, vec!["a"]),
    ];
    assert!(matches!(
        build_package_graph(&packages, &vec![0, 1]),
        Err(Error::CycleError { .. })
    ));
}

#[test]
fn unknown_root_package_is_config_error() {
    let packages = vec![package("core", TargetKind::Library, 0, vec![])];
    let r = WorkspaceInner::assemble(
        "/ws".to_string(),
        packages,
        false,
        CommonArgs { package: Some("nope".to_string()) },
        Fingerprints::new(),
    );
    assert!(matches!(r, Err(Error::ConfigError { .. })));
}

fn two_unit_plan(dep_runtime: CommandRuntime) -> ExecPlan {
    ExecPlan {
        units: vec![
            ExecUnit { cmd: 0, pkg: Some(0), runtime: dep_runtime },
            ExecUnit { cmd: 1, pkg: Some(0), runtime: CommandRuntime::WaitForDependencies },
        ],
        edges: vec![vec![], vec![0]],
    }
}

#[test]
fn scheduler_runs_in_dependency_order() {
    let plan = two_unit_plan(CommandRuntime::WaitForDependencies);
    let mut st = RunState::init(&plan);
    assert_eq!(st.next_runnable(&plan), Some(0));
    assert!(!st.can_start_unit(&plan, 1), "dependent must wait");
    st.start_unit(&plan, 0);
    assert!(!st.can_start_unit(&plan, 1), "started is not finished");
    st.finish_unit(&plan, 0, true);
    assert_eq!(st.next_runnable(&plan), Some(1));
    st.start_unit(&plan, 1);
    st.finish_unit(&plan, 1, true);
    assert!(st.quiescent(&plan));
    assert!(st.all_succeeded(&plan));
}

#[test]
fn failed_dependency_blocks_dependents() {
    let plan = ExecPlan {
        units: vec![
            ExecUnit { cmd: 0, pkg: Some(0), runtime: CommandRuntime::WaitForDependencies },
            ExecUnit { cmd: 1, pkg: Some(0), runtime: CommandRuntime::WaitForDependencies },
            ExecUnit { cmd: 2, pkg: Some(1), runtime: CommandRuntime::WaitForDependencies },
        ],
        edges: vec![vec![], vec![0], vec![]],
    };
    let mut st = RunState::init(&plan);
    st.start_unit(&plan, 0);
    st.finish_unit(&plan, 0, false);
    assert!(!st.can_start_unit(&plan, 1), "dependent of a failure never starts");
    // the unrelated branch still completes
    st.start_unit(&plan, 2);
    st.finish_unit(&plan, 2, true);
    assert!(st.quiescent(&plan), "nothing runs and nothing more can start");
    assert!(!st.all_succeeded(&plan));
}

#[test]
fn ready_watcher_unblocks_dependent() {
    let plan = two_unit_plan(CommandRuntime::RunForever);
    let mut st = RunState::init(&plan);
    st.start_unit(&plan, 0);
    assert!(!st.can_start_unit(&plan, 1), "watcher not ready yet");
    st.mark_ready(&plan, 0);
    assert!(st.can_start_unit(&plan, 1), "readiness alone unblocks the dependent");
    st.start_unit(&plan, 1);
    st.finish_unit(&plan, 1, true);
    assert!(st.all_succeeded(&plan), "the watcher never exits, ready counts");
}

#[test]
fn run_immediately_does_not_block_dependents() {
    let plan = two_unit_plan(CommandRuntime::RunImmediately);
    let mut st = RunState::init(&plan);
    st.start_unit(&plan, 0);
    assert!(st.can_start_unit(&plan, 1), "a spawned unit is enough");
}

#[test]
fn end_to_end_build_order_and_skip() {
    // workspace: core (library), app (site) depending on core
    let packages = vec![
        package("core", TargetKind::Library, 0, vec![]),
        package("app", TargetKind::Site, 1, vec!["core"]),
    ];
    let mut ws = WorkspaceInner::assemble(
        "/ws".to_string(),
        packages,
        true,
        CommonArgs { package: None },
        Fingerprints::new(),
    )
    .unwrap();
    let order = ws.package_display_order().clone();
    assert_eq!(order, vec![0, 1], "core's toolchain runs before app's");
    // one build unit per package, app's gated on core's
    let plan = ExecPlan {
        units: vec![
            ExecUnit { cmd: 0, pkg: Some(order[0]), runtime: CommandRuntime::WaitForDependencies },
            ExecUnit { cmd: 0, pkg: Some(order[1]), runtime: CommandRuntime::WaitForDependencies },
        ],
        edges: vec![vec![], vec![0]],
    };
    let mut st = RunState::init(&plan);
    let mut invocations = 0;
    while let Some(u) = st.next_runnable(&plan) {
        st.start_unit(&plan, u);
        let pkg = plan.units[u].pkg.unwrap();
        let key = format!("build-{}", ws.packages[pkg].name).into_bytes();
        let mk_files = || vec![FileInput {
            path: ws.packages[pkg].source_files[0].clone().into_bytes(),
            content: b"source".to_vec(),
        }];
        if ws.fingerprints.check(&key, mk_files()) {
            st.finish_unit(&plan, u, true);
            continue;
        }
        invocations += 1;
        ws.fingerprints.record(key, mk_files());
        st.finish_unit(&plan, u, true);
    }
    assert!(st.all_succeeded(&plan));
    assert_eq!(invocations, 2, "cold store: both packages build");
    // a second run with no file changes skips every step
    let mut st2 = RunState::init(&plan);
    let mut invocations2 = 0;
    while let Some(u) = st2.next_runnable(&plan) {
        st2.start_unit(&plan, u);
        let pkg = plan.units[u].pkg.unwrap();
        let key = format!("build-{}", ws.packages[pkg].name).into_bytes();
        let mk_files = || vec![FileInput {
            path: ws.packages[pkg].source_files[0].clone().into_bytes(),
            content: b"source".to_vec(),
        }];
        if ws.fingerprints.check(&key, mk_files()) {
            st2.finish_unit(&plan, u, true);
            continue;
        }
        invocations2 += 1;
        ws.fingerprints.record(key, mk_files());
        st2.finish_unit(&plan, u, true);
    }
    assert!(st2.all_succeeded(&plan));
    assert_eq!(invocations2, 0, "every key reports up to date: zero tool invocations");
}

#[test]
fn biome_args_split_extra_words() {
    let cmd = FixCommand::new(FixArgs { biome_args: Some("--verbose \"two words\"".to_string()) });
    let files = vec!["src/a.ts".to_string()];
    let args = cmd.biome_invocation_args(&files).unwrap();
    assert_eq!(args, vec!["check", "--fix", "src/a.ts", "--verbose", "two words"]);
}

#[test]
fn biome_args_parse_failure_is_config_error() {
    let cmd = FixCommand::new(FixArgs { biome_args: Some("\"unclosed".to_string()) });
    let files: Vec<String> = vec![];
    assert!(matches!(cmd.biome_invocation_args(&files), Err(Error::ConfigError { .. })));
}

#[test]
fn fix_command_kind() {
    let c = FixCommand::new(FixArgs { biome_args: None }).kind();
    assert_eq!(c.name(), "fix");
    assert!(matches!(c.runtime(), Some(CommandRuntime::RunImmediately)));
    assert!(c.deps().is_empty());
}

#[test]
fn global_config_root_choice() {
    assert_eq!(
        GlobalConfig::find_root(Some("/custom".to_string()), Some("/home/u".to_string())).unwrap(),
        "/custom"
    );
    assert_eq!(
        GlobalConfig::find_root(None, Some("/home/u".to_string())).unwrap(),
        "/home/u/.local"
    );
    assert!(matches!(GlobalConfig::find_root(None, None), Err(Error::ConfigError { .. })));
}

#[test]
fn global_config_pnpm_choice() {
    let c = GlobalConfig::resolve("/r".to_string(), true, true, None).unwrap();
    assert_eq!(c.pnpm_path(), "/r/bin/pnpm");
    let c2 = GlobalConfig::resolve("/r".to_string(), true, false, Some("/usr/bin/pnpm".to_string()))
        .unwrap();
    assert_eq!(c2.pnpm_path(), "/usr/bin/pnpm");
    assert!(matches!(
        GlobalConfig::resolve("/r".to_string(), true, false, None),
        Err(Error::ConfigError { .. })
    ));
    assert!(matches!(
        GlobalConfig::resolve("/r".to_string(), false, true, None),
        Err(Error::ConfigError { .. })
    ));
}

#[test]
fn pnpm_url_for_this_platform() {
    let url = pnpm_download_url(
        &"9.1.1".to_string(),
        &"linux".to_string(),
        &"x86_64".to_string(),
    );
    assert_eq!(
        url,
        "https://github.com/pnpm/pnpm/releases/download/v9.1.1/pnpm-linuxstatic-x64"
    );
    let mac = pnpm_download_url(&"9.1.1".to_string(), &"macos".to_string(), &"arm".to_string());
    assert_eq!(
        mac,
        "https://github.com/pnpm/pnpm/releases/download/v9.1.1/pnpm-macos-arm64"
    );
}

#[test]
fn progress_is_capped_at_total() {
    assert_eq!(advance_progress(0, 10, 100), 10);
    assert_eq!(advance_progress(95, 10, 100), 100);
    assert_eq!(advance_progress(100, 10, 100), 100);
}

#[test]
fn process_registry_lifecycle() {
    let mut reg = ProcessRegistry::new();
    let h1 = reg.register("tsc".to_string());
    let h2 = reg.register("vite".to_string());
    assert!(reg.any_live());
    reg.mark_finished(h1, Some(0));
    assert!(reg.any_live(), "the second process still runs");
    reg.terminate_all();
    assert!(!reg.any_live(), "terminate all reaches every entry");
    assert_eq!(reg.procs[h2].name, "vite");
}

#[test]
fn wait_for_success_rule() {
    assert!(success_of(&"tsc".to_string(), Some(0)).is_ok());
    match success_of(&"tsc".to_string(), Some(2)) {
        Err(Error::ToolFailure { tool, code }) => {
            assert_eq!(tool, "tsc");
            assert_eq!(code, Some(2));
        },
        _ => panic!("a non-zero exit must be a tool failure"),
    }
    assert!(matches!(
        success_of(&"tsc".to_string(), None),
        Err(Error::ToolFailure { .. })
    ));
}

#[test]
fn pnpm_invocation_shape() {
    let inv = pnpm_invocation(&"/ws".to_string(), &"/usr/bin/pnpm".to_string(), &"tsc".to_string());
    assert_eq!(inv.program, "/usr/bin/pnpm");
    assert_eq!(inv.cwd, "/ws");
    assert_eq!(inv.args, vec!["exec", "tsc"]);
    assert_eq!(inv.env, vec![("NODE_PATH".to_string(), "/ws/node_modules".to_string())]);
    let direct = pnpm_invocation(&"/ws".to_string(), &"/usr/bin/pnpm".to_string(), &"pnpm".to_string());
    assert!(direct.args.is_empty());
}

#[test]
fn workspace_root_is_outermost_manifest() {
    let ancestor = vec!["repo".to_string()];
    let rel = vec!["packages".to_string(), "core".to_string()];
    let found = find_workspace_root(&ancestor, &rel, &vec![false, true, true]).unwrap();
    assert_eq!(found, vec!["repo".to_string(), "packages".to_string()]);
    let none = find_workspace_root(&ancestor, &rel, &vec![false, false, false]);
    assert!(matches!(none, Err(Error::ConfigError { .. })));
}

#[test]
fn workspace_lists_all_files() {
    let ws = WorkspaceInner::assemble(
        "/ws".to_string(),
        vec![
            package("core", TargetKind::Library, 0, vec![]),
            package("app", TargetKind::Site, 1, vec!["core"]),
        ],
        true,
        CommonArgs { package: None },
        Fingerprints::new(),
    )
    .unwrap();
    assert_eq!(
        ws.all_files(),
        vec!["/ws/core/src/index.ts".to_string(), "/ws/app/src/index.ts".to_string()]
    );
}

#[test]
fn setup_command_keeps_args() {
    let s = SetupCommand::new(SetupArgs { config_dir: Some("/cfg".to_string()) });
    assert_eq!(s.args.config_dir.as_deref(), Some("/cfg"));
}

#[test]
fn plan_gates_same_command_across_packages() {
    let packages = vec![
        package("core", TargetKind::Library, 0, vec![]),
        package("app", TargetKind::Site, 1, vec!["core"]),
    ];
    let g = build_package_graph(&packages, &vec![0, 1]).unwrap();
    let display = vec![0usize, 1usize];
    let plan = depot::scheduler::plan_for_package_command(
        &g,
        &display,
        0,
        CommandRuntime::WaitForDependencies,
    );
    assert_eq!(plan.units.len(), 2);
    assert_eq!(plan.units[0].pkg, Some(0));
    assert_eq!(plan.units[1].pkg, Some(1));
    assert!(plan.edges[0].is_empty());
    assert_eq!(plan.edges[1], vec![0usize], "the dependent package's unit waits on its dependency's");
    let mut st = RunState::init(&plan);
    assert_eq!(st.next_runnable(&plan), Some(0));
    assert!(!st.can_start_unit(&plan, 1));
}

#[test]
fn command_graph_rejects_self_dependency() {
    let inner = pkg_cmd("w", vec![], CommandRuntime::WaitForDependencies);
    let outer = pkg_cmd("w", vec![inner], CommandRuntime::WaitForDependencies);
    let g: Result<CommandGraph, Error> = build_command_graph(&outer);
    assert!(matches!(g, Err(Error::CycleError { .. })));
}
