use pascal::config::{PascalConfig, ProjectMeta, PyProject, WorkspaceConfig};
use pascal::workspace::{Brick, BrickKind, Workspace};

fn manifest(name: Option<&str>, deps: &[&str]) -> PyProject {
    PyProject {
        project: name.map(|n| ProjectMeta {
            name: n.to_string(),
            version: Some("0.1.0".to_string()),
            description: None,
            requires_python: None,
            dependencies: deps.iter().map(|d| d.to_string()).collect(),
            scripts: None,
        }),
        tool: None,
        build_system: None,
    }
}

fn make_brick(name: &str, kind: BrickKind) -> Brick {
    Brick {
        name: name.to_string(),
        kind,
        path: format!("/fake/{name}"),
        pyproject: manifest(None, &[]),
    }
}

fn make_workspace(packages: Vec<Brick>, apps: Vec<Brick>) -> Workspace {
    Workspace {
        root: "/fake/root".to_string(),
        config: PascalConfig {
            workspace: WorkspaceConfig {
                name: "test-ws".to_string(),
                python: "3.12".to_string(),
                description: None,
                packages: None,
                apps: None,
            },
        },
        packages,
        apps,
    }
}

#[test]
fn find_brick_finds_package_by_name() {
    let ws = make_workspace(vec![make_brick("cart", BrickKind::Package)], vec![]);
    assert!(ws.find_brick("cart").is_some());
}

#[test]
fn find_brick_finds_app_by_name() {
    let ws = make_workspace(vec![], vec![make_brick("api", BrickKind::App)]);
    assert!(ws.find_brick("api").is_some());
}

#[test]
fn find_brick_returns_none_for_unknown() {
    let ws = make_workspace(vec![make_brick("cart", BrickKind::Package)], vec![]);
    assert!(ws.find_brick("nope").is_none());
}

#[test]
fn member_names_includes_packages_and_apps() {
    let ws = make_workspace(
        vec![
            make_brick("cart", BrickKind::Package),
            make_brick("auth", BrickKind::Package),
        ],
        vec![make_brick("api", BrickKind::App)],
    );
    let names = ws.member_names();
    assert_eq!(names, vec!["cart", "auth", "api"]);
}

#[test]
fn member_names_empty_when_no_bricks() {
    let ws = make_workspace(vec![], vec![]);
    assert!(ws.member_names().is_empty());
}

#[test]
fn brick_kind_names() {
    assert_eq!(BrickKind::Package.as_str(), "package");
    assert_eq!(BrickKind::App.as_str(), "app");
    assert_eq!(BrickKind::Package.conventional_dir(), "packages");
    assert_eq!(BrickKind::App.conventional_dir(), "apps");
}

#[test]
fn brick_name_comes_from_manifest_in_underscore_spelling() {
    let b = Brick::new(
        BrickKind::Package,
        "/ws/packages/dir".to_string(),
        "dir",
        manifest(Some("my-lib"), &[]),
    );
    assert_eq!(b.name, "my_lib");
}

#[test]
fn brick_name_falls_back_to_directory_name_unchanged() {
    let b = Brick::new(BrickKind::App, "/ws/apps/my-app".to_string(), "my-app", manifest(None, &[]));
    assert_eq!(b.name, "my-app");
}

#[test]
fn both_spellings_find_the_same_package() {
    let ws = make_workspace(vec![make_brick("my_lib", BrickKind::Package)], vec![]);
    let a = ws.find_package("my-lib").map(|b| b.name.clone());
    let b = ws.find_package("my_lib").map(|b| b.name.clone());
    assert_eq!(a, Some("my_lib".to_string()));
    assert_eq!(a, b);
    let c = ws.find_brick("my-lib").map(|b| b.name.clone());
    let d = ws.find_brick("my_lib").map(|b| b.name.clone());
    assert_eq!(c, Some("my_lib".to_string()));
    assert_eq!(c, d);
}

#[test]
fn find_app_searches_apps_only() {
    let ws = make_workspace(
        vec![make_brick("cart", BrickKind::Package)],
        vec![make_brick("store_front", BrickKind::App)],
    );
    assert!(ws.find_app("cart").is_none());
    assert_eq!(ws.find_app("store-front").map(|b| b.name.clone()), Some("store_front".to_string()));
}

#[test]
fn explicit_paths_follow_kind() {
    let mut ws = make_workspace(vec![], vec![]);
    ws.config.workspace.packages = Some(vec!["packages/cart".to_string()]);
    assert_eq!(
        ws.config.workspace.explicit_paths(BrickKind::Package),
        Some(&vec!["packages/cart".to_string()])
    );
    assert_eq!(ws.config.workspace.explicit_paths(BrickKind::App), None);
}

#[test]
fn split_dependencies_separates_members_from_outside_packages() {
    let mut app = make_brick("api", BrickKind::App);
    app.pyproject = manifest(Some("api"), &["cart>=1.0", "httpx>=0.27", "my-lib"]);
    let names = vec!["cart".to_string(), "my_lib".to_string()];
    let split = app.split_dependencies(&names);
    assert_eq!(split.internal, vec!["cart", "my_lib"]);
    assert_eq!(split.external, vec!["httpx>=0.27"]);
}

#[test]
fn entry_point_prefers_first_script() {
    let mut app = make_brick("api", BrickKind::App);
    app.pyproject = manifest(Some("api"), &[]);
    assert_eq!(app.entry_point(), "api");
    let mut scripts = indexmap::IndexMap::new();
    scripts.insert("serve".to_string(), "api.main:main".to_string());
    scripts.insert("admin".to_string(), "api.admin:main".to_string());
    app.pyproject.project.as_mut().unwrap().scripts = Some(scripts);
    assert_eq!(app.entry_point(), "serve");
}

#[test]
fn find_brick_answers_to_hyphen_spelling() {
    let ws = make_workspace(vec![make_brick("my_pkg", BrickKind::Package)], vec![]);
    assert_eq!(ws.find_brick("my-pkg").map(|b| b.name.clone()), Some("my_pkg".to_string()));
    assert_eq!(ws.find_brick("my_pkg").map(|b| b.name.clone()), Some("my_pkg".to_string()));
    assert!(ws.find_exact("my-pkg").is_none());
}
