//! The configuration file, formatters and installers.

use crow::config::{
    apply, formatter, install_command, parse, record_recent, Config, Machine, Options, Pm, TEMPLATE,
};

fn machine() -> Machine {
    Machine {
        macos: false,
        root: false,
        rvnd: false,
        has_rvn: false,
        has_pacman: false,
        has_apt: false,
        has_dnf: false,
        has_zypper: false,
        has_apk: false,
        has_brew: false,
    }
}

#[test]
fn parses_a_full_config() {
    let config = parse(
        r##"
theme = "gruvbox"  # comment after value

[options]
tab_width = 8
scrolloff = 5

[keys.normal]
"C-p" = "search"
gq = "quit"

[keys.insert]
"C-s" = "save"

[lsp]
py = "pyright-langserver --stdio"
"##,
    );
    assert_eq!(config.theme, "gruvbox");
    assert_eq!(config.tab_width, 8);
    assert_eq!(config.scrolloff, 5);
    assert_eq!(
        config.keys_normal,
        vec![
            ("C-p".to_string(), "search".to_string()),
            ("gq".to_string(), "quit".to_string()),
        ]
    );
    assert_eq!(
        config.keys_insert,
        vec![("C-s".to_string(), "save".to_string())]
    );
    assert_eq!(
        config.lsp,
        vec![("py".to_string(), "pyright-langserver --stdio".to_string())]
    );
}

#[test]
fn missing_sections_mean_defaults() {
    let config = parse("theme = \"mono\"\n");
    assert_eq!(config.theme, "mono");
    assert_eq!(config.tab_width, 4);
    // No [lsp] section: the built-in rust-analyzer entry stays.
    assert_eq!(config.lsp, Config::default().lsp);
}

#[test]
fn an_lsp_section_replaces_the_default_table() {
    let config = parse("[lsp]\ngo = \"gopls\"\n");
    assert_eq!(config.lsp, vec![("go".to_string(), "gopls".to_string())]);
}

#[test]
fn comments_and_junk_are_ignored() {
    let config = parse("# hello\ntheme = \"x # not a comment\"\nnoise without equals\n");
    assert_eq!(config.theme, "x # not a comment");
}

#[test]
fn formatter_lookup_falls_back_to_builtins() {
    let options = Options::default();
    assert_eq!(formatter(&options, "go").as_deref(), Some("gofmt"));
    assert!(formatter(&options, "xyz").is_none());
}

#[test]
fn ecosystem_tools_install_the_same_way_everywhere() {
    for pm in [None, Some(Pm::Brew), Some(Pm::Apt), Some(Pm::Pacman)] {
        assert_eq!(
            install_command("prettier", pm, &machine()).as_deref(),
            Some("npm install -g prettier")
        );
    }
    assert!(install_command("no-such-tool", Some(Pm::Apt), &machine()).is_none());
}

/// The thing this table exists to get right: a Linux box is told to use
/// the package manager it actually has, not Homebrew.
#[test]
fn a_system_package_uses_this_machines_manager() {
    let arch = install_command("clangd", Some(Pm::Pacman), &machine()).unwrap();
    assert!(
        arch.ends_with("pacman -S --needed --noconfirm clang"),
        "{arch}"
    );
    assert!(!arch.contains("brew"));
    let debian = install_command("clangd", Some(Pm::Apt), &machine()).unwrap();
    assert!(debian.ends_with("apt-get install -y clangd"), "{debian}");
    // The package is whatever that manager calls it, not one name for all.
    let fedora = install_command("clangd", Some(Pm::Dnf), &machine()).unwrap();
    assert!(fedora.ends_with("clang-tools-extra"), "{fedora}");
    assert_eq!(
        install_command("clangd", Some(Pm::Brew), &machine()).as_deref(),
        Some("brew install llvm")
    );
}

/// Everything but Homebrew writes into system directories, so everything
/// but Homebrew is prefixed with sudo — unless we are already root.
#[test]
fn system_managers_need_root_and_homebrew_does_not() {
    let sudo = |program, pm| {
        install_command(program, Some(pm), &machine())
            .unwrap()
            .starts_with("sudo ")
    };
    assert_eq!(sudo("clangd", Pm::Dnf), !machine().root);
    assert_eq!(sudo("clangd", Pm::Apk), !machine().root);
    assert!(!sudo("clangd", Pm::Brew));
}

/// Raven's rvn wraps pacman: same package names, its own command line,
/// and no sudo once its daemon is the one doing the writing.
#[test]
fn rvn_installs_pacmans_packages_its_own_way() {
    let raven = install_command("clang-format", Some(Pm::Rvn), &machine()).unwrap();
    assert!(raven.ends_with("rvn install -y clang"), "{raven}");
    assert!(!raven.contains("pacman"));
    assert_eq!(
        raven.starts_with("sudo "),
        !machine().root && !machine().rvnd,
        "{raven}"
    );
    // A package pacman lacks is one rvn lacks too: build it instead.
    assert_eq!(
        install_command("taplo", Some(Pm::Rvn), &machine()).as_deref(),
        Some("cargo install taplo-cli --locked")
    );
}

/// A distro that has no package for a tool gets a build from the tool's
/// own ecosystem rather than an install command that would just fail.
#[test]
fn a_distro_without_the_package_builds_it_instead() {
    assert!(install_command("stylua", Some(Pm::Pacman), &machine())
        .unwrap()
        .ends_with("pacman -S --needed --noconfirm stylua"));
    assert_eq!(
        install_command("stylua", Some(Pm::Apt), &machine()).as_deref(),
        Some("cargo install stylua")
    );
    assert_eq!(
        install_command("gopls", Some(Pm::Dnf), &machine()).as_deref(),
        Some("go install golang.org/x/tools/gopls@latest")
    );
}

#[test]
fn a_fmt_section_is_parsed() {
    let config = parse("[fmt]\npy = \"ruff format -\"\n");
    assert_eq!(
        config.fmt,
        vec![("py".to_string(), "ruff format -".to_string())]
    );
}

/// Applying a second configuration replaces the first one's formatters: with
/// the first ones kept, a reload would keep formatting with what was edited
/// away.
#[test]
fn apply_replaces_the_fmt_overrides() {
    let mut options = Options::default();
    apply(
        &Config {
            fmt: vec![("py".into(), "ruff format -".into())],
            ..Config::default()
        },
        &mut options,
    );
    assert_eq!(formatter(&options, "py").as_deref(), Some("ruff format -"));
    apply(
        &Config {
            fmt: vec![("py".into(), "blue -".into())],
            ..Config::default()
        },
        &mut options,
    );
    assert_eq!(formatter(&options, "py").as_deref(), Some("blue -"));
    // Dropping the entry falls back to the built-in table.
    apply(&Config::default(), &mut options);
    assert_eq!(formatter(&options, "py").as_deref(), Some("black -q -"));
}

#[test]
fn the_template_parses_to_defaults() {
    let config = parse(TEMPLATE);
    assert_eq!(config.theme, "tokyonight");
    assert_eq!(config.tab_width, 4);
    assert_eq!(config.scrolloff, 3);
    assert!(config.keys_normal.is_empty());
    assert_eq!(config.lsp, Config::default().lsp);
}

#[test]
fn recent_files_dedupe_most_recent_first() {
    let mut recent: Vec<String> = Vec::new();
    recent = record_recent(&recent, "/t/a.txt");
    recent = record_recent(&recent, "/t/b.txt");
    recent = record_recent(&recent, "/t/a.txt"); // back to the front, not duplicated
    assert_eq!(recent, ["/t/a.txt", "/t/b.txt"]);
}
