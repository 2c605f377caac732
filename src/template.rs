//! The text of the files that `init` and `create` write.

use vstd::prelude::*;

use crate::names::{hyphenated, to_hyphen, to_underscore, underscored};

verus! {

/// The workspace manifest of a new workspace.
pub fn pascal_toml(name: &str, python: &str) -> (r: String)
    ensures
        r@ == "[workspace]\nname = \""@ + name@ + "\"\npython = \""@ + python@
            + "\"\ndescription = \"\"\n\n# Auto-discovered from packages/ and apps/ directories.\n# Uncomment and edit to pin specific members:\n# packages = [\"packages/cart\", \"packages/auth\"]\n# apps     = [\"apps/api_service\"]\n"@,
{
    let mut r = String::new();
    r.append("[workspace]\nname = \"");
    r.append(name);
    r.append("\"\npython = \"");
    r.append(python);
    r.append(
        "\"\ndescription = \"\"\n\n# Auto-discovered from packages/ and apps/ directories.\n# Uncomment and edit to pin specific members:\n# packages = [\"packages/cart\", \"packages/auth\"]\n# apps     = [\"apps/api_service\"]\n",
    );
    r
}

/// The project manifest of a new package, named in hyphen spelling.
pub fn package_pyproject(name: &str, python: &str) -> (r: String)
    ensures
        r@ == package_pyproject_text(name@, python@),
{
    let normalized = to_hyphen(name);
    let mut r = String::new();
    r.append("[project]\nname = \"");
    r.append(normalized.as_str());
    r.append("\"\nversion = \"0.1.0\"\nrequires-python = \">=");
    r.append(python);
    r.append(
        "\"\ndependencies = []\n\n[build-system]\nrequires = [\"hatchling\"]\nbuild-backend = \"hatchling.build\"\n",
    );
    r
}

/// The project manifest of a new app: named in hyphen spelling, with one
/// script, in underscore spelling, that runs its `main`.
pub fn app_pyproject(name: &str, python: &str) -> (r: String)
    ensures
        r@ == app_pyproject_text(name@, python@),
{
    let normalized = to_hyphen(name);
    let snake = to_underscore(name);
    let mut r = String::new();
    r.append("[project]\nname = \"");
    r.append(normalized.as_str());
    r.append("\"\nversion = \"0.1.0\"\nrequires-python = \">=");
    r.append(python);
    r.append("\"\ndependencies = []\n\n[project.scripts]\n");
    r.append(snake.as_str());
    r.append(" = \"");
    r.append(snake.as_str());
    r.append(
        ".main:main\"\n\n[build-system]\nrequires = [\"hatchling\"]\nbuild-backend = \"hatchling.build\"\n",
    );
    r
}

/// The `__init__.py` of a new brick.
pub fn init_py(name: &str) -> (r: String)
    ensures
        r@ == init_py_text(name@),
{
    let snake = to_underscore(name);
    let mut r = String::new();
    r.append("__version__ = \"0.1.0\"\n__all__ = [\"");
    r.append(snake.as_str());
    r.append("\"]\n");
    r
}

/// The `main.py` of a new app.
pub fn app_main_py(name: &str) -> (r: String)
    ensures
        r@ == app_main_py_text(name@),
{
    let snake = to_underscore(name);
    let mut r = String::new();
    r.append("def main() -> None:\n    print(\"Hello from ");
    r.append(snake.as_str());
    r.append("!\")\n\n\nif __name__ == \"__main__\":\n    main()\n");
    r
}

/// The test stub of a new brick.
pub fn test_stub_py(name: &str) -> (r: String)
    ensures
        r@ == test_stub_py_text(name@),
{
    let snake = to_underscore(name);
    let mut r = String::new();
    r.append("def test_");
    r.append(snake.as_str());
    r.append("() -> None:\n    assert True\n");
    r
}

/// The root project manifest, which makes every package and app a member of
/// the uv workspace.
pub fn root_pyproject(workspace_name: &str, python: &str) -> (r: String)
    ensures
        r@ == "[project]\nname = \""@ + workspace_name@ + "\"\nversion = \"0.1.0\"\nrequires-python = \">="@
            + python@ + "\"\n\n[tool.uv.workspace]\nmembers = [\"packages/*\", \"apps/*\"]\n"@,
{
    let mut r = String::new();
    r.append("[project]\nname = \"");
    r.append(workspace_name);
    r.append("\"\nversion = \"0.1.0\"\nrequires-python = \">=");
    r.append(python);
    r.append("\"\n\n[tool.uv.workspace]\nmembers = [\"packages/*\", \"apps/*\"]\n");
    r
}

/// The `.gitignore` that `init` writes when none exists.
pub fn gitignore() -> (r: &'static str)
    ensures
        r@ == "# Python\n__pycache__/\n*.pyc\n*.pyo\n.venv/\ndist/\n*.egg-info/\n\n# UV\n.uv/\nuv.lock\n"@,
{
    "# Python\n__pycache__/\n*.pyc\n*.pyo\n.venv/\ndist/\n*.egg-info/\n\n# UV\n.uv/\nuv.lock\n"
}

/// Text of a new package's project manifest.
pub open spec fn package_pyproject_text(name: Seq<char>, python: Seq<char>) -> Seq<char> {
    "[project]\nname = \""@ + hyphenated(name) + "\"\nversion = \"0.1.0\"\nrequires-python = \">="@ + python
        + "\"\ndependencies = []\n\n[build-system]\nrequires = [\"hatchling\"]\nbuild-backend = \"hatchling.build\"\n"@
}

/// Text of a new app's project manifest.
pub open spec fn app_pyproject_text(name: Seq<char>, python: Seq<char>) -> Seq<char> {
    "[project]\nname = \""@ + hyphenated(name) + "\"\nversion = \"0.1.0\"\nrequires-python = \">="@ + python
        + "\"\ndependencies = []\n\n[project.scripts]\n"@ + underscored(name) + " = \""@ + underscored(name)
        + ".main:main\"\n\n[build-system]\nrequires = [\"hatchling\"]\nbuild-backend = \"hatchling.build\"\n"@
}

/// Text of a new brick's `__init__.py`.
pub open spec fn init_py_text(name: Seq<char>) -> Seq<char> {
    "__version__ = \"0.1.0\"\n__all__ = [\""@ + underscored(name) + "\"]\n"@
}

/// Text of a new app's `main.py`.
pub open spec fn app_main_py_text(name: Seq<char>) -> Seq<char> {
    "def main() -> None:\n    print(\"Hello from "@ + underscored(name)
        + "!\")\n\n\nif __name__ == \"__main__\":\n    main()\n"@
}

/// Text of a new brick's test stub.
pub open spec fn test_stub_py_text(name: Seq<char>) -> Seq<char> {
    "def test_"@ + underscored(name) + "() -> None:\n    assert True\n"@
}

} // verus!
