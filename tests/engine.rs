use indexmap::IndexMap;
use pascal::config::{PascalConfig, ProjectMeta, PyProject, UvSource, WorkspaceConfig};
use pascal::display::header_padding;
use pascal::git::latest_tag_name;
use pascal::graph::DependencyGraph;
use pascal::impact::{analyze, relative_dir};
use pascal::mutate::{add_dependency, resolve_add, AddError, AddOutcome};
use pascal::scaffold::{scaffold_plan, workspace_name};
use pascal::template::package_pyproject;
use pascal::uv::{uv_build_args, uv_run_args, uv_sync_args, uv_test_args};
use pascal::validate::{check, expected_src_dir, Finding, LayoutFacts};
use pascal::workspace::{Brick, BrickKind, Workspace};

fn manifest(name: &str, deps: &[&str]) -> PyProject {
    PyProject {
        project: Some(ProjectMeta {
            name: name.to_string(),
            version: Some("0.1.0".to_string()),
            description: None,
            requires_python: Some(">=3.12".to_string()),
            dependencies: deps.iter().map(|d| d.to_string()).collect(),
            scripts: None,
        }),
        tool: None,
        build_system: None,
    }
}

fn brick(name: &str, kind: BrickKind, deps: &[&str]) -> Brick {
    let dir = match kind {
        BrickKind::Package => "packages",
        BrickKind::App => "apps",
    };
    Brick {
        name: name.to_string(),
        kind,
        path: format!("/ws/{dir}/{name}"),
        pyproject: manifest(name, deps),
    }
}

fn workspace(name: &str, packages: Vec<Brick>, apps: Vec<Brick>) -> Workspace {
    Workspace {
        root: "/ws".to_string(),
        config: PascalConfig {
            workspace: WorkspaceConfig {
                name: name.to_string(),
                python: "3.12".to_string(),
                description: None,
                packages: None,
                apps: None,
            },
        },
        packages,
        apps,
    }
}

fn healthy(n: usize) -> Vec<LayoutFacts> {
    vec![LayoutFacts { has_src_dir: true, has_manifest: true }; n]
}

fn routed(p: &mut PyProject, names: &[&str]) {
    let mut sources = IndexMap::new();
    for n in names {
        sources.insert(n.to_string(), UvSource::Workspace { workspace: true });
    }
    p.tool = Some(pascal::config::ToolConfig {
        uv: Some(pascal::config::UvToolConfig { workspace: None, sources: Some(sources) }),
    });
}

#[test]
fn graph_has_edges_only_to_members() {
    let ws = workspace(
        "ws",
        vec![brick("cart", BrickKind::Package, &["httpx>=0.27"])],
        vec![brick("api", BrickKind::App, &["cart>=0.1", "requests", "Cart"])],
    );
    let g = DependencyGraph::build(&ws);
    assert_eq!(g.node_count(), 2);
    assert_eq!(g.neighbor_names(0), Vec::<String>::new());
    assert_eq!(g.neighbor_names(1), vec!["cart"]);
    assert!(!g.is_cyclic());
}

#[test]
fn graph_neighbors_come_latest_first() {
    let ws = workspace(
        "ws",
        vec![brick("cart", BrickKind::Package, &[]), brick("auth", BrickKind::Package, &[])],
        vec![brick("api", BrickKind::App, &["cart", "auth"])],
    );
    let g = DependencyGraph::build(&ws);
    assert_eq!(g.neighbor_names(2), vec!["auth", "cart"]);
}

#[test]
fn hyphenated_specifier_reaches_underscore_member() {
    let ws = workspace(
        "ws",
        vec![brick("my_lib", BrickKind::Package, &[])],
        vec![brick("api", BrickKind::App, &["my-lib[extra]>=1"])],
    );
    let g = DependencyGraph::build(&ws);
    assert_eq!(g.neighbor_names(1), vec!["my_lib"]);
}

#[test]
fn acyclic_workspace_checks_clean() {
    let mut api = brick("api", BrickKind::App, &["cart"]);
    routed(&mut api.pyproject, &["cart"]);
    let ws = workspace("ws", vec![brick("cart", BrickKind::Package, &[])], vec![api]);
    let g = DependencyGraph::build(&ws);
    let report = check(&ws, &g, &healthy(2));
    assert!(!report.cyclic);
    assert_eq!(report.errors, 0);
    assert_eq!(report.warnings, 0);
    assert!(report.findings.is_empty());
}

#[test]
fn two_brick_cycle_is_one_error() {
    let ws = workspace(
        "ws",
        vec![brick("a", BrickKind::Package, &["b"]), brick("b", BrickKind::Package, &["a"])],
        vec![],
    );
    let g = DependencyGraph::build(&ws);
    assert!(g.is_cyclic());
    let report = check(&ws, &g, &healthy(2));
    assert!(report.cyclic);
    assert_eq!(report.errors, 1);
}

#[test]
fn several_cycles_are_still_one_error() {
    let ws = workspace(
        "ws",
        vec![
            brick("a", BrickKind::Package, &["b"]),
            brick("b", BrickKind::Package, &["c"]),
            brick("c", BrickKind::Package, &["a"]),
            brick("d", BrickKind::Package, &["e"]),
            brick("e", BrickKind::Package, &["d"]),
            brick("f", BrickKind::Package, &["f"]),
        ],
        vec![],
    );
    let g = DependencyGraph::build(&ws);
    let report = check(&ws, &g, &healthy(6));
    assert_eq!(report.errors, 1);
    assert_eq!(report.warnings, 0);
}

#[test]
fn missing_source_entry_warns_per_dependency() {
    let api = brick("api", BrickKind::App, &["cart", "auth", "httpx"]);
    let ws = workspace(
        "ws",
        vec![brick("cart", BrickKind::Package, &[]), brick("auth", BrickKind::Package, &[])],
        vec![api],
    );
    let g = DependencyGraph::build(&ws);
    let report = check(&ws, &g, &healthy(3));
    assert_eq!(report.errors, 0);
    assert_eq!(report.warnings, 2);
    assert!(matches!(&report.findings[0], Finding::MissingSource { app, member } if app == "api" && member == "cart"));
}

#[test]
fn hyphen_source_key_counts_as_routed() {
    let mut api = brick("api", BrickKind::App, &["my-lib"]);
    routed(&mut api.pyproject, &["my-lib"]);
    let ws = workspace("ws", vec![brick("my_lib", BrickKind::Package, &[])], vec![api]);
    let g = DependencyGraph::build(&ws);
    assert_eq!(check(&ws, &g, &healthy(2)).warnings, 0);
}

#[test]
fn layout_and_manifest_findings_are_counted() {
    let ws = workspace(
        "ws",
        vec![brick("cart", BrickKind::Package, &[]), brick("auth", BrickKind::Package, &[])],
        vec![],
    );
    let g = DependencyGraph::build(&ws);
    let layout = vec![
        LayoutFacts { has_src_dir: false, has_manifest: true },
        LayoutFacts { has_src_dir: true, has_manifest: false },
    ];
    let report = check(&ws, &g, &layout);
    assert_eq!(report.errors, 1);
    assert_eq!(report.warnings, 1);
    assert!(matches!(&report.findings[0], Finding::MissingSrcDir { brick, expected } if brick == "cart" && expected == "src/cart"));
    assert!(matches!(&report.findings[1], Finding::MissingManifest { brick } if brick == "auth"));
}

#[test]
fn expected_src_dir_uses_underscores() {
    assert_eq!(expected_src_dir("my-pkg"), "src/my_pkg");
}

#[test]
fn change_in_package_affects_dependent_app() {
    let ws = workspace(
        "shop",
        vec![brick("cart", BrickKind::Package, &[])],
        vec![brick("storefront", BrickKind::App, &["cart"])],
    );
    let changed = vec!["packages/cart/src/cart/__init__.py".to_string()];
    let impact = analyze(&ws, &changed);
    assert_eq!(impact.changed, vec!["cart"]);
    assert_eq!(impact.affected_apps, vec!["storefront"]);
    assert!(!impact.changed.contains(&"storefront".to_string()));
}

#[test]
fn changed_app_is_not_listed_as_affected() {
    let ws = workspace(
        "shop",
        vec![brick("cart", BrickKind::Package, &[])],
        vec![brick("storefront", BrickKind::App, &["cart"])],
    );
    let changed = vec![
        "packages/cart/pyproject.toml".to_string(),
        "apps/storefront/src/storefront/main.py".to_string(),
    ];
    let impact = analyze(&ws, &changed);
    assert_eq!(impact.changed, vec!["cart", "storefront"]);
    assert!(impact.affected_apps.is_empty());
}

#[test]
fn empty_change_set_affects_nothing() {
    let ws = workspace(
        "shop",
        vec![brick("cart", BrickKind::Package, &[])],
        vec![brick("storefront", BrickKind::App, &["cart"])],
    );
    let impact = analyze(&ws, &vec![]);
    assert!(impact.changed.is_empty());
    assert!(impact.affected_apps.is_empty());
}

#[test]
fn relative_dir_strips_root() {
    assert_eq!(relative_dir("/ws", "/ws/packages/cart"), "packages/cart");
    assert_eq!(relative_dir("/ws", "/ws"), "");
    assert_eq!(relative_dir("/ws", "/wsx/cart"), "/wsx/cart");
    assert_eq!(relative_dir("/ws", "/other/cart"), "/other/cart");
}

#[test]
fn add_twice_declares_once() {
    let mut p = manifest("storefront", &[]);
    assert_eq!(add_dependency(&mut p, "cart", "storefront").unwrap(), AddOutcome::Added);
    assert_eq!(add_dependency(&mut p, "cart", "storefront").unwrap(), AddOutcome::AlreadyPresent);
    let deps = &p.project.as_ref().unwrap().dependencies;
    assert_eq!(deps.iter().filter(|d| d.as_str() == "cart").count(), 1);
    let sources = p.tool.as_ref().unwrap().uv.as_ref().unwrap().sources.as_ref().unwrap();
    assert_eq!(sources.len(), 1);
}

#[test]
fn add_uses_hyphen_spelling() {
    let mut p = manifest("storefront", &["httpx"]);
    assert_eq!(add_dependency(&mut p, "my_lib", "storefront").unwrap(), AddOutcome::Added);
    assert_eq!(p.project.as_ref().unwrap().dependencies, vec!["httpx", "my-lib"]);
    let sources = p.tool.as_ref().unwrap().uv.as_ref().unwrap().sources.as_ref().unwrap();
    assert!(matches!(sources.get("my-lib"), Some(UvSource::Workspace { workspace: true })));
}

#[test]
fn add_to_manifest_without_project_fails() {
    let mut p = PyProject { project: None, tool: None, build_system: None };
    assert!(matches!(
        add_dependency(&mut p, "cart", "api"),
        Err(AddError::InvalidManifest { target }) if target == "api"
    ));
    assert!(p.tool.is_none());
}

#[test]
fn add_ghost_lists_available_packages() {
    let ws = workspace(
        "shop",
        vec![brick("cart", BrickKind::Package, &[]), brick("auth", BrickKind::Package, &[])],
        vec![brick("storefront", BrickKind::App, &[])],
    );
    match resolve_add(&ws, "ghost", "storefront") {
        Err(AddError::PackageNotFound { name, available }) => {
            assert_eq!(name, "ghost");
            assert_eq!(available, vec!["cart", "auth"]);
        }
        _ => panic!("expected a not-found error"),
    }
}

#[test]
fn add_to_unknown_target_lists_members() {
    let ws = workspace(
        "shop",
        vec![brick("cart", BrickKind::Package, &[])],
        vec![brick("storefront", BrickKind::App, &[])],
    );
    match resolve_add(&ws, "cart", "nowhere") {
        Err(AddError::TargetNotFound { name, available }) => {
            assert_eq!(name, "nowhere");
            assert_eq!(available, vec!["cart", "storefront"]);
        }
        _ => panic!("expected a not-found error"),
    }
}

#[test]
fn shop_workflow_end_to_end() {
    let name = workspace_name(Some("shop".to_string()), "dir").unwrap();
    assert_eq!(name, "shop");
    let mut bricks = Vec::new();
    for (n, kind) in [("cart", BrickKind::Package), ("auth", BrickKind::Package), ("storefront", BrickKind::App)] {
        let plan = scaffold_plan(n, "3.12", kind == BrickKind::App);
        let text = &plan.files[0].contents;
        let parsed: toml::Value = toml::from_str(text).unwrap();
        let project = parsed.get("project").unwrap();
        let pyproject = PyProject {
            project: Some(ProjectMeta {
                name: project.get("name").unwrap().as_str().unwrap().to_string(),
                version: Some("0.1.0".to_string()),
                description: None,
                requires_python: Some(">=3.12".to_string()),
                dependencies: vec![],
                scripts: None,
            }),
            tool: None,
            build_system: None,
        };
        let dir = kind.conventional_dir();
        bricks.push(Brick::new(kind, format!("/ws/{dir}/{n}"), n, pyproject));
    }
    let storefront = bricks.pop().unwrap();
    let mut ws = workspace("shop", bricks, vec![storefront]);
    for pkg in ["cart", "auth"] {
        let (p, t) = resolve_add(&ws, pkg, "storefront").ok().unwrap();
        let (pkg_name, target_name) = (p.name.clone(), t.name.clone());
        let target = ws.apps.iter_mut().find(|b| b.name == target_name).unwrap();
        assert_eq!(add_dependency(&mut target.pyproject, &pkg_name, &target_name).unwrap(), AddOutcome::Added);
    }
    let g = DependencyGraph::build(&ws);
    let report = check(&ws, &g, &healthy(3));
    assert_eq!(report.errors, 0);
    assert_eq!(report.warnings, 0);
    let sf = &ws.apps[0].pyproject;
    assert_eq!(sf.project.as_ref().unwrap().dependencies, vec!["cart", "auth"]);
    let sources = sf.tool.as_ref().unwrap().uv.as_ref().unwrap().sources.as_ref().unwrap();
    assert!(matches!(sources.get("cart"), Some(UvSource::Workspace { workspace: true })));
    assert!(matches!(sources.get("auth"), Some(UvSource::Workspace { workspace: true })));
}

#[test]
fn scaffold_plan_lists_app_files() {
    let plan = scaffold_plan("my-app", "3.12", true);
    assert_eq!(plan.dirs, vec!["src/my_app", "tests"]);
    let paths: Vec<&str> = plan.files.iter().map(|f| f.rel_path.as_str()).collect();
    assert_eq!(
        paths,
        vec!["pyproject.toml", "src/my_app/__init__.py", "src/my_app/main.py", "tests/test_my_app.py"]
    );
    let pkg = scaffold_plan("cart", "3.11", false);
    assert_eq!(pkg.files.len(), 3);
    assert_eq!(pkg.files[0].contents, package_pyproject("cart", "3.11"));
}

#[test]
fn empty_workspace_name_is_refused() {
    assert!(workspace_name(None, "").is_err());
    assert_eq!(workspace_name(None, "here").unwrap(), "here");
}

#[test]
fn latest_tag_takes_newest_first_on_ties() {
    let tags = vec![(10, "v1".to_string()), (30, "v3".to_string()), (30, "v3b".to_string()), (20, "v2".to_string())];
    assert_eq!(latest_tag_name(&tags), Some("v3".to_string()));
    assert_eq!(latest_tag_name(&vec![]), None);
}

#[test]
fn uv_argument_lists() {
    let extra = vec!["-k".to_string(), "fast".to_string()];
    assert_eq!(uv_run_args("/ws/apps/api", "api", &extra), vec!["run", "--project", "/ws/apps/api", "api", "-k", "fast"]);
    assert_eq!(uv_build_args("/ws/apps/api"), vec!["build", "--project", "/ws/apps/api"]);
    assert_eq!(
        uv_test_args("/ws/apps/api", "/ws/apps/api/tests", &vec![]),
        vec!["run", "--project", "/ws/apps/api", "pytest", "/ws/apps/api/tests"]
    );
    assert_eq!(uv_sync_args(), vec!["sync"]);
}

#[test]
fn header_padding_centres_title() {
    assert_eq!(header_padding(10), (24, 24));
    assert_eq!(header_padding(11), (23, 24));
    assert_eq!(header_padding(58), (0, 0));
    assert_eq!(header_padding(100), (0, 0));
}

#[test]
fn add_replaces_existing_source_entry_in_place() {
    let mut p = manifest("storefront", &["httpx"]);
    let mut sources = IndexMap::new();
    sources.insert("auth".to_string(), UvSource::Path { path: "../auth".to_string() });
    sources.insert("cart".to_string(), UvSource::Path { path: "../cart".to_string() });
    p.tool = Some(pascal::config::ToolConfig {
        uv: Some(pascal::config::UvToolConfig { workspace: None, sources: Some(sources) }),
    });
    assert_eq!(add_dependency(&mut p, "auth", "storefront").unwrap(), AddOutcome::Added);
    let sources = p.tool.as_ref().unwrap().uv.as_ref().unwrap().sources.as_ref().unwrap();
    let keys: Vec<&String> = sources.keys().collect();
    assert_eq!(keys, vec!["auth", "cart"]);
    assert!(matches!(sources.get("auth"), Some(UvSource::Workspace { workspace: true })));
    assert!(matches!(sources.get("cart"), Some(UvSource::Path { path }) if path == "../cart"));
}

#[test]
fn prefix_match_counts_as_already_declared() {
    let mut p = manifest("storefront", &["cart>=1.0"]);
    assert_eq!(add_dependency(&mut p, "cart", "storefront").unwrap(), AddOutcome::AlreadyPresent);
    assert_eq!(p.project.as_ref().unwrap().dependencies, vec!["cart>=1.0"]);
    assert!(p.tool.is_none());
}
