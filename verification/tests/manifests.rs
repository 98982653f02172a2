//! Manifests of every kind, lock files and registries.

use crow::deps::{
    cargo_deps, cargo_locked, crates_index_path, go_deps, go_escape, line_dep, normalize_py,
    npm_deps, npm_locked, pyproject_deps, requirements_deps, semver_key, version_span, Kind,
};

#[test]
fn cargo_deps_cover_the_section_variants() {
    let names: Vec<String> = cargo_deps(
        r#"
[package]
name = "crow"

[dependencies]
ropey = "1.6"
crossterm = { version = "0.27", features = ["x"] }
serde.workspace = true
# regex = "1"

[dev-dependencies]
tempfile = "3"

[profile.release]
lto = true
"#,
    )
    .into_iter()
    .map(|(n, _)| n)
    .collect();
    assert_eq!(names, ["ropey", "crossterm", "serde", "tempfile"]);
}

#[test]
fn cargo_lock_takes_the_first_version_per_name() {
    let locked = cargo_locked(
        "[[package]]\nname = \"ropey\"\nversion = \"1.6.1\"\ndependencies = [\n \"smallvec\",\n]\n\n[[package]]\nname = \"smallvec\"\nversion = \"1.13.2\"\n",
    );
    assert_eq!(locked.get("ropey").map(String::as_str), Some("1.6.1"));
    assert_eq!(locked.get("smallvec").map(String::as_str), Some("1.13.2"));
}

#[test]
fn npm_deps_and_lock_parse() {
    let deps = npm_deps(
        r#"{"dependencies": {"react": "^18.2.0"}, "devDependencies": {"vite": "~5.0"}}"#,
    );
    assert_eq!(
        deps,
        [
            ("react".to_string(), Some("18.2.0".to_string())),
            ("vite".to_string(), Some("5.0".to_string())),
        ]
    );
    let locked = npm_locked(
        r#"{"packages": {"": {}, "node_modules/react": {"version": "18.3.1"},
            "node_modules/react/node_modules/x": {"version": "1.0.0"}}}"#,
    );
    assert_eq!(locked.get("react").map(String::as_str), Some("18.3.1"));
    assert!(!locked.contains_key("react/node_modules/x"));
}

#[test]
fn pyproject_deps_cover_pep621_and_poetry() {
    let deps = pyproject_deps(
        r#"
[project]
dependencies = [
"fastapi>=0.100",
"uvicorn[standard]>=0.23",
]

[project.optional-dependencies]
dev = ["pytest>=8"]

[tool.poetry.dependencies]
python = "^3.11"
Django = "^5.0"
"#,
    );
    let names: Vec<&str> = deps.iter().map(|(n, _)| n.as_str()).collect();
    assert_eq!(names, ["fastapi", "uvicorn", "pytest", "django"]);
    assert_eq!(deps[0].1.as_deref(), Some("0.100"));
}

#[test]
fn requirements_and_go_parse() {
    let reqs =
        requirements_deps("fastapi==0.100.0\n# comment\n-r other.txt\nFlask_Login>=0.6\n");
    assert_eq!(
        reqs,
        [
            ("fastapi".to_string(), Some("0.100.0".to_string())),
            ("flask-login".to_string(), Some("0.6".to_string())),
        ]
    );
    let gos = go_deps(
        "module example.com/x\n\nrequire golang.org/x/tools v0.1.0\n\nrequire (\n\tgithub.com/go-chi/chi/v5 v5.0.12 // indirect\n)\n",
    );
    assert_eq!(
        gos,
        [
            ("golang.org/x/tools".to_string(), Some("0.1.0".to_string())),
            (
                "github.com/go-chi/chi/v5".to_string(),
                Some("5.0.12".to_string())
            ),
        ]
    );
}

#[test]
fn line_dep_reads_each_manifest_style() {
    assert_eq!(
        line_dep(Kind::Cargo, "ropey = \"1.6\""),
        Some("ropey".into())
    );
    assert_eq!(
        line_dep(Kind::Npm, "    \"react\": \"^18.2.0\","),
        Some("react".into())
    );
    assert_eq!(
        line_dep(Kind::Pypi, "    \"fastapi>=0.100\","),
        Some("fastapi".into())
    );
    assert_eq!(
        line_dep(Kind::Pypi, "Django = \"^5.0\""),
        Some("django".into())
    );
    assert_eq!(
        line_dep(Kind::Requirements, "fastapi==0.100"),
        Some("fastapi".into())
    );
    assert_eq!(
        line_dep(Kind::Go, "\tgithub.com/go-chi/chi/v5 v5.0.12 // indirect"),
        Some("github.com/go-chi/chi/v5".into())
    );
    assert_eq!(line_dep(Kind::Cargo, "[dependencies]"), None);
}

#[test]
fn version_span_skips_digits_in_names() {
    let line = "base64 = \"0.21\"";
    let (s, e) = version_span(Kind::Cargo, line).unwrap();
    assert_eq!(&line[s..e], "0.21");
    let line = "\tgithub.com/go-chi/chi/v5 v5.0.12";
    let (s, e) = version_span(Kind::Go, line).unwrap();
    assert_eq!(&line[s..e], "5.0.12");
}

#[test]
fn deps_semver_keys_order_and_ignore_tails() {
    assert!(semver_key("0.29.0") > semver_key("0.27.0"));
    assert!(semver_key("1.0.0") > semver_key("0.99.99"));
    assert_eq!(semver_key("1.2.3-beta.1"), semver_key("1.2.3+build5"));
}

#[test]
fn registry_paths_follow_each_layout() {
    assert_eq!(crates_index_path("a"), "1/a");
    assert_eq!(crates_index_path("io"), "2/io");
    assert_eq!(crates_index_path("fnv"), "3/f/fnv");
    assert_eq!(crates_index_path("ropey"), "ro/pe/ropey");
    assert_eq!(
        go_escape("github.com/Masterminds/semver"),
        "github.com/!masterminds/semver"
    );
    assert_eq!(normalize_py("Flask_Login"), "flask-login");
}
