//! Cargo manifests, lock files and the crate index.

use crow::crates::{dep_names, index_path, locked_versions, semver_key};

#[test]
fn dep_names_cover_the_section_variants() {
    let names = dep_names(
        r#"
[package]
name = "crow"

[dependencies]
ropey = "1.6"
crossterm = { version = "0.27", features = ["x"] }
serde.workspace = true
# regex = "1"

[dev-dependencies]
tempfile = "3"

[profile.release]
lto = true
"#,
    );
    assert_eq!(names, ["ropey", "crossterm", "serde", "tempfile"]);
}

#[test]
fn lock_parse_takes_the_first_version_per_name() {
    let locked = locked_versions(
        r#"
[[package]]
name = "ropey"
version = "1.6.1"
dependencies = [
 "smallvec",
]

[[package]]
name = "smallvec"
version = "1.13.2"
"#,
    );
    assert_eq!(locked.get("ropey").map(String::as_str), Some("1.6.1"));
    assert_eq!(locked.get("smallvec").map(String::as_str), Some("1.13.2"));
}

#[test]
fn crates_semver_keys_order_and_ignore_tails() {
    assert!(semver_key("0.29.0") > semver_key("0.27.0"));
    assert!(semver_key("1.0.0") > semver_key("0.99.99"));
    assert_eq!(semver_key("1.2.3-beta.1"), semver_key("1.2.3+build5"));
}

#[test]
fn index_paths_follow_the_sparse_layout() {
    assert_eq!(index_path("a"), "1/a");
    assert_eq!(index_path("io"), "2/io");
    assert_eq!(index_path("fnv"), "3/f/fnv");
    assert_eq!(index_path("ropey"), "ro/pe/ropey");
}
