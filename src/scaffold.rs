//! What `init` and `create` put on disk, as plain values.

use vstd::prelude::*;

use crate::error::PascalError;
use crate::names::{to_underscore, underscored};
use crate::template::{
    app_main_py, app_main_py_text, app_pyproject, app_pyproject_text, init_py, init_py_text,
    package_pyproject, package_pyproject_text, test_stub_py, test_stub_py_text,
};

verus! {

/// A file to write, at a path relative to the brick's directory.
#[derive(Debug)]
pub struct GeneratedFile {
    pub rel_path: String,
    pub contents: String,
}

/// The directories to create and the files to write for a new brick.
#[derive(Debug)]
pub struct ScaffoldPlan {
    pub dirs: Vec<String>,
    pub files: Vec<GeneratedFile>,
}

/// The relative paths of a plan's files, in order.
pub open spec fn file_paths(files: Seq<GeneratedFile>) -> Seq<Seq<char>> {
    files.map_values(|f: GeneratedFile| f.rel_path@)
}

/// The relative paths of the files a new brick gets: its manifest, its
/// `__init__.py`, an app's `main.py`, and a test stub.
pub open spec fn scaffold_paths(name: Seq<char>, is_app: bool) -> Seq<Seq<char>> {
    let snake = underscored(name);
    let head = seq!["pyproject.toml"@, "src/"@ + snake + "/__init__.py"@];
    let tail = seq!["tests/test_"@ + snake + ".py"@];
    if is_app {
        head.push("src/"@ + snake + "/main.py"@) + tail
    } else {
        head + tail
    }
}

/// Appends `b` to `a`.
fn concat(a: &str, b: &str) -> (r: String)
    ensures
        r@ == a@ + b@,
{
    let mut r = a.to_owned();
    r.append(b);
    r
}

/// The plan for a new package (`is_app` false) or app named `name`.
pub fn scaffold_plan(name: &str, python: &str, is_app: bool) -> (r: ScaffoldPlan)
    ensures
        r.dirs@.map_values(|s: String| s@) == seq!["src/"@ + underscored(name@), "tests"@],
        file_paths(r.files@) == scaffold_paths(name@, is_app),
        r.files@[0].contents@ == (if is_app {
            app_pyproject_text(name@, python@)
        } else {
            package_pyproject_text(name@, python@)
        }),
        r.files@[1].contents@ == init_py_text(name@),
        is_app ==> r.files@[2].contents@ == app_main_py_text(name@),
        r.files@.last().contents@ == test_stub_py_text(name@),
{
    let snake = to_underscore(name);
    let src_dir = concat("src/", snake.as_str());
    let mut dirs: Vec<String> = Vec::new();
    dirs.push(src_dir);
    dirs.push("tests".to_owned());
    let mut files: Vec<GeneratedFile> = Vec::new();
    let manifest = if is_app {
        app_pyproject(name, python)
    } else {
        package_pyproject(name, python)
    };
    files.push(GeneratedFile { rel_path: "pyproject.toml".to_owned(), contents: manifest });
    let src_pkg = concat("src/", snake.as_str());
    files.push(GeneratedFile { rel_path: concat(src_pkg.as_str(), "/__init__.py"), contents: init_py(name) });
    if is_app {
        files.push(GeneratedFile { rel_path: concat(src_pkg.as_str(), "/main.py"), contents: app_main_py(name) });
    }
    let test_file = concat("tests/test_", snake.as_str());
    files.push(GeneratedFile { rel_path: concat(test_file.as_str(), ".py"), contents: test_stub_py(name) });
    assert(dirs@.map_values(|s: String| s@) =~= seq!["src/"@ + underscored(name@), "tests"@]);
    assert(file_paths(files@) =~= scaffold_paths(name@, is_app));
    ScaffoldPlan { dirs, files }
}

/// The name of a new workspace: the one given, else the directory's name.
/// An empty name is refused.
pub fn workspace_name(given: Option<String>, dir_name: &str) -> (r: Result<String, PascalError>)
    ensures
        r matches Ok(n) ==> n@ == (match given {
            Some(g) => g@,
            None => dir_name@,
        }) && n@.len() > 0,
        r is Err <==> (match given {
            Some(g) => g@,
            None => dir_name@,
        }).len() == 0,
{
    let name = match given {
        Some(g) => g,
        None => dir_name.to_owned(),
    };
    if name.as_str().unicode_len() == 0 {
        return Err(PascalError::Other("Workspace name cannot be empty".to_owned()));
    }
    Ok(name)
}

} // verus!
