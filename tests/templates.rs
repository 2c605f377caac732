use pascal::template::{
    app_main_py, app_pyproject, gitignore, init_py, package_pyproject, pascal_toml, root_pyproject,
    test_stub_py,
};

#[test]
fn pascal_toml_contains_name_and_python() {
    let out = pascal_toml("my-ws", "3.12");
    assert!(out.contains("my-ws"));
    assert!(out.contains("3.12"));
}

#[test]
fn pascal_toml_is_valid_toml() {
    let out = pascal_toml("ws", "3.11");
    toml::from_str::<toml::Value>(&out).expect("should be valid TOML");
}

#[test]
fn package_pyproject_normalizes_underscores_to_hyphens() {
    let out = package_pyproject("my_pkg", "3.12");
    assert!(out.contains("my-pkg"));
}

#[test]
fn package_pyproject_contains_python_constraint() {
    let out = package_pyproject("cart", "3.11");
    assert!(out.contains(">=3.11"));
}

#[test]
fn package_pyproject_uses_hatchling() {
    let out = package_pyproject("cart", "3.12");
    assert!(out.contains("hatchling"));
}

#[test]
fn package_pyproject_is_valid_toml() {
    let out = package_pyproject("cart", "3.12");
    toml::from_str::<toml::Value>(&out).expect("should be valid TOML");
}

#[test]
fn app_pyproject_has_scripts_section() {
    let out = app_pyproject("api_service", "3.12");
    assert!(out.contains("[project.scripts]"));
}

#[test]
fn app_pyproject_script_key_uses_snake_case() {
    let out = app_pyproject("api-service", "3.12");
    assert!(out.contains("api_service"));
}

#[test]
fn app_pyproject_normalizes_hyphens_in_name() {
    let out = app_pyproject("my_app", "3.12");
    assert!(out.contains("my-app"));
}

#[test]
fn app_pyproject_is_valid_toml() {
    let out = app_pyproject("api_service", "3.12");
    toml::from_str::<toml::Value>(&out).expect("should be valid TOML");
}

#[test]
fn init_py_contains_version_var() {
    let out = init_py("cart");
    assert!(out.contains("__version__"));
}

#[test]
fn init_py_snake_cases_name() {
    let out = init_py("my-pkg");
    assert!(out.contains("my_pkg"));
    assert!(!out.contains("my-pkg"));
}

#[test]
fn app_main_py_has_main_function() {
    let out = app_main_py("api_service");
    assert!(out.contains("def main()"));
}

#[test]
fn app_main_py_has_dunder_main_guard() {
    let out = app_main_py("api_service");
    assert!(out.contains("__main__"));
}

#[test]
fn test_stub_py_function_matches_name() {
    let out = test_stub_py("cart");
    assert!(out.contains("def test_cart()"));
}

#[test]
fn test_stub_py_snake_cases_hyphenated_name() {
    let out = test_stub_py("my-pkg");
    assert!(out.contains("def test_my_pkg()"));
}

#[test]
fn root_pyproject_has_uv_workspace_members() {
    let out = root_pyproject("my-ws", "3.12");
    assert!(out.contains("[tool.uv.workspace]"));
    assert!(out.contains("packages/*"));
    assert!(out.contains("apps/*"));
}

#[test]
fn root_pyproject_is_valid_toml() {
    let out = root_pyproject("my-ws", "3.12");
    toml::from_str::<toml::Value>(&out).expect("should be valid TOML");
}

#[test]
fn package_pyproject_exact_text() {
    let out = package_pyproject("my_pkg", "3.12");
    assert_eq!(
        out,
        "[project]\nname = \"my-pkg\"\nversion = \"0.1.0\"\nrequires-python = \">=3.12\"\ndependencies = []\n\n[build-system]\nrequires = [\"hatchling\"]\nbuild-backend = \"hatchling.build\"\n"
    );
}

#[test]
fn app_pyproject_exact_script_line() {
    let out = app_pyproject("api-service", "3.12");
    assert!(out.contains("name = \"api-service\""));
    assert!(out.contains("api_service = \"api_service.main:main\""));
}

#[test]
fn init_py_exact_text() {
    assert_eq!(init_py("my-pkg"), "__version__ = \"0.1.0\"\n__all__ = [\"my_pkg\"]\n");
}

#[test]
fn gitignore_lists_venv_and_lockfile() {
    assert!(gitignore().contains(".venv/"));
    assert!(gitignore().contains("uv.lock"));
}
