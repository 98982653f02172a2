//! crow.toml, the only file you edit: a declarative spec of theme, options,
//! keys and language servers. Everything is optional; a missing file means
//! defaults, and the first run writes a commented template to grow from.
//!
//! The file is a small subset of TOML: `[sections]`, `key = value` with quoted
//! strings and integers, `#` comments.

use vstd::prelude::*;
use crate::strings::{
    chars_of, lines, lines_of, opt_str, opt_text, parse_bool, parse_number, push_lit, read_bool,
    read_usize, same, slices, spells, string_of, strip_prefix, strip_suffix, text_pairs, texts,
    trim, trimmed, without_prefix, without_suffix, words, words_of,
};
use vstd::slice::slice_subrange;

verus! {

pub struct Config {
    pub theme: String,
    pub tab_width: usize,
    pub scrolloff: usize,
    pub autoclose: bool,
    pub icons: bool,
    pub format_on_save: bool,
    pub show_hidden: bool,
    /// Wrap long lines onto the next row instead of scrolling sideways.
    pub soft_wrap: bool,
    /// Tint spaces and tabs left at the end of a line.
    pub trailing_whitespace: bool,
    /// Cut that whitespace on write.
    pub strip_trailing_whitespace: bool,
    /// Keep undo history across sessions, in the state dir.
    pub persistent_undo: bool,
    /// Write unsaved buffers to swap files so a crash loses seconds, not work.
    pub swap_files: bool,
    /// Take the mouse: click to place the cursor, drag to select, wheel to scroll.
    pub mouse: bool,
    /// Reload buffers whose file changed on disk (unmodified ones only).
    pub auto_reload: bool,
    /// Change markers in the gutter against the last seal.
    pub vcs_gutter: bool,
    /// Write a buffer so many milliseconds after the last key; 0 for never.
    pub autosave: usize,
    /// What the terminal split runs; empty means `$SHELL`, falling back to `/bin/sh`.
    pub shell: String,
    /// Extra bindings per mode: (key sequence, command name).
    pub keys_normal: Vec<(String, String)>,
    pub keys_insert: Vec<(String, String)>,
    /// Language servers: (file extension, server command line).
    pub lsp: Vec<(String, String)>,
    /// Formatters: (file extension, command reading stdin, writing stdout).
    /// Entries here override the built-in table.
    pub fmt: Vec<(String, String)>,
}

/// What a `Config` says, over mathematical strings.
pub struct ConfigView {
    pub theme: Seq<char>,
    pub tab_width: usize,
    pub scrolloff: usize,
    pub autoclose: bool,
    pub icons: bool,
    pub format_on_save: bool,
    pub show_hidden: bool,
    pub soft_wrap: bool,
    pub trailing_whitespace: bool,
    pub strip_trailing_whitespace: bool,
    pub persistent_undo: bool,
    pub swap_files: bool,
    pub mouse: bool,
    pub auto_reload: bool,
    pub vcs_gutter: bool,
    pub autosave: usize,
    pub shell: Seq<char>,
    pub keys_normal: Seq<(Seq<char>, Seq<char>)>,
    pub keys_insert: Seq<(Seq<char>, Seq<char>)>,
    pub lsp: Seq<(Seq<char>, Seq<char>)>,
    pub fmt: Seq<(Seq<char>, Seq<char>)>,
}

impl View for Config {
    type V = ConfigView;

    open spec fn view(&self) -> ConfigView {
        ConfigView {
            theme: self.theme@,
            tab_width: self.tab_width,
            scrolloff: self.scrolloff,
            autoclose: self.autoclose,
            icons: self.icons,
            format_on_save: self.format_on_save,
            show_hidden: self.show_hidden,
            soft_wrap: self.soft_wrap,
            trailing_whitespace: self.trailing_whitespace,
            strip_trailing_whitespace: self.strip_trailing_whitespace,
            persistent_undo: self.persistent_undo,
            swap_files: self.swap_files,
            mouse: self.mouse,
            auto_reload: self.auto_reload,
            vcs_gutter: self.vcs_gutter,
            autosave: self.autosave,
            shell: self.shell@,
            keys_normal: text_pairs(self.keys_normal@),
            keys_insert: text_pairs(self.keys_insert@),
            lsp: text_pairs(self.lsp@),
            fmt: text_pairs(self.fmt@),
        }
    }
}

pub open spec fn default_lsp() -> Seq<(Seq<char>, Seq<char>)> {
    seq![("rs"@, "rust-analyzer"@)]
}

pub open spec fn default_config() -> ConfigView {
    ConfigView {
        theme: "tokyonight"@,
        tab_width: 4,
        scrolloff: 3,
        autoclose: true,
        icons: true,
        format_on_save: true,
        show_hidden: false,
        soft_wrap: true,
        trailing_whitespace: true,
        strip_trailing_whitespace: true,
        persistent_undo: true,
        swap_files: true,
        mouse: true,
        auto_reload: true,
        vcs_gutter: true,
        autosave: 0,
        shell: Seq::empty(),
        keys_normal: Seq::empty(),
        keys_insert: Seq::empty(),
        lsp: default_lsp(),
        fmt: Seq::empty(),
    }
}

impl Default for Config {
    fn default() -> (r: Self)
        ensures
            r@ == default_config(),
    {
        let mut lsp: Vec<(String, String)> = Vec::new();
        lsp.push(("rs".to_owned(), "rust-analyzer".to_owned()));
        assert(text_pairs(lsp@) =~= default_lsp());
        assert(text_pairs(Seq::empty()) =~= Seq::empty());
        Config {
            theme: "tokyonight".to_owned(),
            tab_width: 4,
            scrolloff: 3,
            autoclose: true,
            icons: true,
            format_on_save: true,
            show_hidden: false,
            soft_wrap: true,
            trailing_whitespace: true,
            strip_trailing_whitespace: true,
            persistent_undo: true,
            swap_files: true,
            mouse: true,
            auto_reload: true,
            vcs_gutter: true,
            autosave: 0,
            shell: String::new(),
            keys_normal: Vec::new(),
            keys_insert: Vec::new(),
            lsp,
            fmt: Vec::new(),
        }
    }
}

// ---- the live values --------------------------------------------------------

/// The options in force, as the last `apply` left them. Nothing caches them,
/// so a second `apply` is all a reload needs.
pub struct Options {
    pub theme: String,
    pub tab_width: usize,
    pub scrolloff: usize,
    pub autoclose: bool,
    pub icons: bool,
    pub format_on_save: bool,
    pub show_hidden: bool,
    pub soft_wrap: bool,
    pub trailing_whitespace: bool,
    pub strip_trailing_whitespace: bool,
    pub persistent_undo: bool,
    pub swap_files: bool,
    pub mouse: bool,
    pub auto_reload: bool,
    pub vcs_gutter: bool,
    pub autosave: usize,
    pub shell: String,
    pub fmt: Vec<(String, String)>,
}

pub struct OptionsView {
    pub theme: Seq<char>,
    pub tab_width: usize,
    pub scrolloff: usize,
    pub autoclose: bool,
    pub icons: bool,
    pub format_on_save: bool,
    pub show_hidden: bool,
    pub soft_wrap: bool,
    pub trailing_whitespace: bool,
    pub strip_trailing_whitespace: bool,
    pub persistent_undo: bool,
    pub swap_files: bool,
    pub mouse: bool,
    pub auto_reload: bool,
    pub vcs_gutter: bool,
    pub autosave: usize,
    pub shell: Seq<char>,
    pub fmt: Seq<(Seq<char>, Seq<char>)>,
}

impl View for Options {
    type V = OptionsView;

    open spec fn view(&self) -> OptionsView {
        OptionsView {
            theme: self.theme@,
            tab_width: self.tab_width,
            scrolloff: self.scrolloff,
            autoclose: self.autoclose,
            icons: self.icons,
            format_on_save: self.format_on_save,
            show_hidden: self.show_hidden,
            soft_wrap: self.soft_wrap,
            trailing_whitespace: self.trailing_whitespace,
            strip_trailing_whitespace: self.strip_trailing_whitespace,
            persistent_undo: self.persistent_undo,
            swap_files: self.swap_files,
            mouse: self.mouse,
            auto_reload: self.auto_reload,
            vcs_gutter: self.vcs_gutter,
            autosave: self.autosave,
            shell: self.shell@,
            fmt: text_pairs(self.fmt@),
        }
    }
}

/// The options that a run starts with, before any config is applied.
pub open spec fn default_options() -> OptionsView {
    OptionsView {
        theme: "default"@,
        tab_width: 4,
        scrolloff: 3,
        autoclose: true,
        icons: true,
        format_on_save: true,
        show_hidden: false,
        soft_wrap: true,
        trailing_whitespace: true,
        strip_trailing_whitespace: true,
        persistent_undo: true,
        swap_files: true,
        mouse: true,
        auto_reload: true,
        vcs_gutter: true,
        autosave: 0,
        shell: Seq::empty(),
        fmt: Seq::empty(),
    }
}

impl Default for Options {
    fn default() -> (r: Self)
        ensures
            r@ == default_options(),
    {
        assert(text_pairs(Seq::empty()) =~= Seq::empty());
        Options {
            theme: "default".to_owned(),
            tab_width: 4,
            scrolloff: 3,
            autoclose: true,
            icons: true,
            format_on_save: true,
            show_hidden: false,
            soft_wrap: true,
            trailing_whitespace: true,
            strip_trailing_whitespace: true,
            persistent_undo: true,
            swap_files: true,
            mouse: true,
            auto_reload: true,
            vcs_gutter: true,
            autosave: 0,
            shell: String::new(),
            fmt: Vec::new(),
        }
    }
}

pub fn tab_width(options: &Options) -> (r: usize)
    ensures
        r == options@.tab_width,
{
    options.tab_width
}

pub fn scrolloff(options: &Options) -> (r: usize)
    ensures
        r == options@.scrolloff,
{
    options.scrolloff
}

pub fn autoclose(options: &Options) -> (r: bool)
    ensures
        r == options@.autoclose,
{
    options.autoclose
}

pub fn icons(options: &Options) -> (r: bool)
    ensures
        r == options@.icons,
{
    options.icons
}

pub fn format_on_save(options: &Options) -> (r: bool)
    ensures
        r == options@.format_on_save,
{
    options.format_on_save
}

pub fn show_hidden(options: &Options) -> (r: bool)
    ensures
        r == options@.show_hidden,
{
    options.show_hidden
}

/// Wrap long lines onto the next row instead of scrolling sideways.
pub fn soft_wrap(options: &Options) -> (r: bool)
    ensures
        r == options@.soft_wrap,
{
    options.soft_wrap
}

/// Tint spaces and tabs left at the end of a line.
pub fn trailing_whitespace(options: &Options) -> (r: bool)
    ensures
        r == options@.trailing_whitespace,
{
    options.trailing_whitespace
}

/// Cut that whitespace on write.
pub fn strip_trailing_whitespace(options: &Options) -> (r: bool)
    ensures
        r == options@.strip_trailing_whitespace,
{
    options.strip_trailing_whitespace
}

/// Keep undo history across sessions, in the state dir.
pub fn persistent_undo(options: &Options) -> (r: bool)
    ensures
        r == options@.persistent_undo,
{
    options.persistent_undo
}

/// Write unsaved buffers to swap files so a crash loses seconds, not work.
pub fn swap_files(options: &Options) -> (r: bool)
    ensures
        r == options@.swap_files,
{
    options.swap_files
}

/// Take the mouse: click to place the cursor, drag to select, wheel to scroll.
pub fn mouse(options: &Options) -> (r: bool)
    ensures
        r == options@.mouse,
{
    options.mouse
}

/// Reload buffers whose file changed on disk (unmodified ones only).
pub fn auto_reload(options: &Options) -> (r: bool)
    ensures
        r == options@.auto_reload,
{
    options.auto_reload
}

/// Change markers in the gutter against the last seal.
pub fn vcs_gutter(options: &Options) -> (r: bool)
    ensures
        r == options@.vcs_gutter,
{
    options.vcs_gutter
}

/// Flip dotfile visibility at runtime. Returns the new value.
pub fn toggle_hidden(options: &mut Options) -> (r: bool)
    ensures
        r == !old(options)@.show_hidden,
        final(options)@ == (OptionsView { show_hidden: r, ..old(options)@ }),
{
    options.show_hidden = !options.show_hidden;
    options.show_hidden
}

/// Flip soft wrap at runtime. Returns the new value.
pub fn toggle_soft_wrap(options: &mut Options) -> (r: bool)
    ensures
        r == !old(options)@.soft_wrap,
        final(options)@ == (OptionsView { soft_wrap: r, ..old(options)@ }),
{
    options.soft_wrap = !options.soft_wrap;
    options.soft_wrap
}

/// The themes there are.
pub open spec fn is_theme(name: Seq<char>) -> bool {
    name == "tokyonight"@ || name == "gruvbox"@ || name == "mono"@ || name == "default"@
}

pub fn theme_known(name: &str) -> (r: bool)
    ensures
        r == is_theme(name@),
{
    same(name, "tokyonight") || same(name, "gruvbox") || same(name, "mono") || same(name, "default")
}

/// The live values once `config` is in force: the width of a tab is kept
/// between 1 and 16, the scroll margin at 50 at most, and an unknown theme
/// leaves the theme as it was.
pub open spec fn applied(config: ConfigView, before: OptionsView) -> OptionsView {
    OptionsView {
        theme: if is_theme(config.theme) {
            config.theme
        } else {
            before.theme
        },
        tab_width: if config.tab_width < 1 {
            1
        } else if config.tab_width > 16 {
            16
        } else {
            config.tab_width
        },
        scrolloff: if config.scrolloff > 50 {
            50
        } else {
            config.scrolloff
        },
        autoclose: config.autoclose,
        icons: config.icons,
        format_on_save: config.format_on_save,
        show_hidden: config.show_hidden,
        soft_wrap: config.soft_wrap,
        trailing_whitespace: config.trailing_whitespace,
        strip_trailing_whitespace: config.strip_trailing_whitespace,
        persistent_undo: config.persistent_undo,
        swap_files: config.swap_files,
        mouse: config.mouse,
        auto_reload: config.auto_reload,
        vcs_gutter: config.vcs_gutter,
        autosave: config.autosave,
        shell: config.shell,
        fmt: config.fmt,
    }
}

/// A copy of a list of pairs of strings.
pub fn copy_pairs(v: &Vec<(String, String)>) -> (out: Vec<(String, String)>)
    ensures
        text_pairs(out@) == text_pairs(v@),
        out@.len() == v@.len(),
{
    let mut out: Vec<(String, String)> = Vec::new();
    let mut i: usize = 0;
    while i < v.len()
        invariant
            i <= v@.len(),
            out@.len() == i,
            forall|k: int| 0 <= k < i ==> out@[k].0@ == v@[k].0@ && out@[k].1@ == v@[k].1@,
        decreases v@.len() - i,
    {
        out.push((v[i].0.clone(), v[i].1.clone()));
        i += 1;
    }
    assert(text_pairs(out@) =~= text_pairs(v@));
    out
}

/// Install the config's options and theme as the live values. False when the
/// theme name was not recognised: startup ignores that, a reload reports it
/// rather than looking like it did nothing.
pub fn apply(config: &Config, options: &mut Options) -> (known: bool)
    ensures
        known == is_theme(config@.theme),
        final(options)@ == applied(config@, old(options)@),
{
    let known = theme_known(config.theme.as_str());
    if known {
        options.theme = config.theme.clone();
    }
    options.tab_width = if config.tab_width < 1 {
        1
    } else if config.tab_width > 16 {
        16
    } else {
        config.tab_width
    };
    options.scrolloff = if config.scrolloff > 50 {
        50
    } else {
        config.scrolloff
    };
    options.autoclose = config.autoclose;
    options.icons = config.icons;
    options.format_on_save = config.format_on_save;
    options.show_hidden = config.show_hidden;
    options.soft_wrap = config.soft_wrap;
    options.trailing_whitespace = config.trailing_whitespace;
    options.strip_trailing_whitespace = config.strip_trailing_whitespace;
    options.persistent_undo = config.persistent_undo;
    options.swap_files = config.swap_files;
    options.mouse = config.mouse;
    options.auto_reload = config.auto_reload;
    options.vcs_gutter = config.vcs_gutter;
    options.autosave = config.autosave;
    options.shell = config.shell.clone();
    options.fmt = copy_pairs(&config.fmt);
    known
}

// ---- reading the file -------------------------------------------------------

/// The first place at or after `i` that holds `c` outside double quotes, or
/// the length; `quoted` says whether `i` stands inside them.
pub open spec fn unquoted_from(s: Seq<char>, c: char, i: int, quoted: bool) -> int
    decreases s.len() - i,
{
    if i < 0 || i >= s.len() {
        s.len() as int
    } else if s[i] == '"' {
        unquoted_from(s, c, i + 1, !quoted)
    } else if s[i] == c && !quoted {
        i
    } else {
        unquoted_from(s, c, i + 1, quoted)
    }
}

fn find_unquoted(s: &[char], c: char) -> (r: usize)
    ensures
        r == unquoted_from(s@, c, 0, false),
        r <= s@.len(),
{
    let mut quoted = false;
    let mut i: usize = 0;
    while i < s.len()
        invariant
            i <= s@.len(),
            unquoted_from(s@, c, 0, false) == unquoted_from(s@, c, i as int, quoted),
        decreases s@.len() - i,
    {
        if s[i] == '"' {
            quoted = !quoted;
        } else if s[i] == c && !quoted {
            return i;
        }
        i += 1;
    }
    i
}

/// A line without its `#` comment; a `#` inside a quoted string starts none.
pub open spec fn without_comment(line: Seq<char>) -> Seq<char> {
    line.take(unquoted_from(line, '#', 0, false))
}

/// Drop a `#` comment, ignoring `#` inside quoted strings.
fn strip_comment<'a>(line: &'a [char]) -> (r: &'a [char])
    ensures
        r@ == without_comment(line@),
{
    let end = find_unquoted(line, '#');
    slice_subrange(line, 0, end)
}

/// `s` without a pair of double quotes around it.
pub open spec fn unquoted(s: Seq<char>) -> Seq<char> {
    match without_prefix(s, "\""@) {
        Some(rest) => match without_suffix(rest, "\""@) {
            Some(inner) => inner,
            None => s,
        },
        None => s,
    }
}

fn unquote<'a>(s: &'a [char]) -> (r: &'a [char])
    ensures
        r@ == unquoted(s@),
{
    match strip_prefix(s, "\"") {
        Some(rest) => match strip_suffix(rest, "\"") {
            Some(inner) => inner,
            None => s,
        },
        None => s,
    }
}

/// The key and the value of a `key = value` line, both optionally quoted:
/// what stands on the two sides of the first `=` outside quotes.
pub open spec fn key_value(line: Seq<char>) -> Option<(Seq<char>, Seq<char>)> {
    let eq = unquoted_from(line, '=', 0, false);
    let key = unquoted(trim(line.take(eq)));
    if eq >= line.len() || key.len() == 0 {
        None
    } else {
        Some((key, unquoted(trim(line.skip(eq + 1)))))
    }
}

/// `key = value` with optionally quoted key and value.
fn split_kv<'a>(line: &'a [char]) -> (r: Option<(&'a [char], &'a [char])>)
    ensures
        match r {
            Some((k, v)) => key_value(line@) == Some((k@, v@)),
            None => key_value(line@) is None,
        },
{
    let eq = find_unquoted(line, '=');
    if eq >= line.len() {
        return None;
    }
    let key = unquote(trimmed(slice_subrange(line, 0, eq)));
    let value = unquote(trimmed(slice_subrange(line, eq + 1, line.len())));
    assert(line@.subrange(eq + 1, line@.len() as int) =~= line@.skip(eq + 1));
    if key.len() == 0 {
        None
    } else {
        Some((key, value))
    }
}

pub open spec fn bool_or(value: Seq<char>, before: bool) -> bool {
    match parse_bool(value) {
        Some(b) => b,
        None => before,
    }
}

fn bool_else(value: &[char], before: bool) -> (r: bool)
    ensures
        r == bool_or(value@, before),
{
    match read_bool(value) {
        Some(b) => b,
        None => before,
    }
}

pub open spec fn number_or(value: Seq<char>, before: usize) -> usize {
    match parse_number(value, usize::MAX as nat) {
        Some(n) => n as usize,
        None => before,
    }
}

fn number_else(value: &[char], before: usize) -> (r: usize)
    ensures
        r == number_or(value@, before),
{
    match read_usize(value) {
        Some(n) => n,
        None => before,
    }
}

/// What `key = value` in the `[options]` section does: a value that does not
/// read as the option's type, or an unknown key, leaves everything as it was.
pub open spec fn with_option(c: ConfigView, key: Seq<char>, value: Seq<char>) -> ConfigView {
    if key == "tab_width"@ {
        ConfigView { tab_width: number_or(value, c.tab_width), ..c }
    } else if key == "scrolloff"@ {
        ConfigView { scrolloff: number_or(value, c.scrolloff), ..c }
    } else if key == "autosave"@ {
        ConfigView { autosave: number_or(value, c.autosave), ..c }
    } else if key == "autoclose"@ {
        ConfigView { autoclose: bool_or(value, c.autoclose), ..c }
    } else if key == "icons"@ {
        ConfigView { icons: bool_or(value, c.icons), ..c }
    } else if key == "show_hidden"@ {
        ConfigView { show_hidden: bool_or(value, c.show_hidden), ..c }
    } else if key == "format_on_save"@ {
        ConfigView { format_on_save: bool_or(value, c.format_on_save), ..c }
    } else if key == "soft_wrap"@ {
        ConfigView { soft_wrap: bool_or(value, c.soft_wrap), ..c }
    } else if key == "trailing_whitespace"@ {
        ConfigView { trailing_whitespace: bool_or(value, c.trailing_whitespace), ..c }
    } else if key == "strip_trailing_whitespace"@ {
        ConfigView { strip_trailing_whitespace: bool_or(value, c.strip_trailing_whitespace), ..c }
    } else if key == "persistent_undo"@ {
        ConfigView { persistent_undo: bool_or(value, c.persistent_undo), ..c }
    } else if key == "swap_files"@ {
        ConfigView { swap_files: bool_or(value, c.swap_files), ..c }
    } else if key == "mouse"@ {
        ConfigView { mouse: bool_or(value, c.mouse), ..c }
    } else if key == "auto_reload"@ {
        ConfigView { auto_reload: bool_or(value, c.auto_reload), ..c }
    } else if key == "vcs_gutter"@ {
        ConfigView { vcs_gutter: bool_or(value, c.vcs_gutter), ..c }
    } else if key == "shell"@ {
        ConfigView { shell: value, ..c }
    } else {
        c
    }
}

fn set_option(config: &mut Config, name: &[char], value: &[char])
    ensures
        final(config)@ == with_option(old(config)@, name@, value@),
{
    let key_text = string_of(name);
    let key = key_text.as_str();
    if same(key, "tab_width") {
        config.tab_width = number_else(value, config.tab_width);
        return;
    } else if same(key, "scrolloff") {
        config.scrolloff = number_else(value, config.scrolloff);
        return;
    } else if same(key, "autosave") {
        config.autosave = number_else(value, config.autosave);
        return;
    } else if same(key, "autoclose") {
        config.autoclose = bool_else(value, config.autoclose);
        return;
    } else if same(key, "icons") {
        config.icons = bool_else(value, config.icons);
        return;
    } else if same(key, "show_hidden") {
        config.show_hidden = bool_else(value, config.show_hidden);
        return;
    } else if same(key, "format_on_save") {
        config.format_on_save = bool_else(value, config.format_on_save);
        return;
    } else if same(key, "soft_wrap") {
        config.soft_wrap = bool_else(value, config.soft_wrap);
        return;
    } else if same(key, "trailing_whitespace") {
        config.trailing_whitespace = bool_else(value, config.trailing_whitespace);
        return;
    } else if same(key, "strip_trailing_whitespace") {
        config.strip_trailing_whitespace = bool_else(value, config.strip_trailing_whitespace);
        return;
    } else if same(key, "persistent_undo") {
        config.persistent_undo = bool_else(value, config.persistent_undo);
        return;
    } else if same(key, "swap_files") {
        config.swap_files = bool_else(value, config.swap_files);
        return;
    } else if same(key, "mouse") {
        config.mouse = bool_else(value, config.mouse);
        return;
    } else if same(key, "auto_reload") {
        config.auto_reload = bool_else(value, config.auto_reload);
        return;
    } else if same(key, "vcs_gutter") {
        config.vcs_gutter = bool_else(value, config.vcs_gutter);
        return;
    } else if same(key, "shell") {
        config.shell = string_of(value);
    }
}

/// What a `key = value` line does in the section that it stands in.
pub open spec fn with_entry(
    c: ConfigView,
    section: Seq<char>,
    key: Seq<char>,
    value: Seq<char>,
) -> ConfigView {
    if section.len() == 0 {
        if key == "theme"@ {
            ConfigView { theme: value, ..c }
        } else {
            c
        }
    } else if section == "options"@ {
        with_option(c, key, value)
    } else if section == "keys.normal"@ {
        ConfigView { keys_normal: c.keys_normal.push((key, value)), ..c }
    } else if section == "keys.insert"@ {
        ConfigView { keys_insert: c.keys_insert.push((key, value)), ..c }
    } else if section == "lsp"@ {
        ConfigView { lsp: c.lsp.push((key, value)), ..c }
    } else if section == "fmt"@ {
        ConfigView { fmt: c.fmt.push((key, value)), ..c }
    } else {
        c
    }
}

fn set_entry(config: &mut Config, section: &[char], key: &[char], value: &[char])
    ensures
        final(config)@ == with_entry(old(config)@, section@, key@, value@),
{
    if section.len() == 0 {
        if spells(key, "theme") {
            config.theme = string_of(value);
            return;
        }
    } else if spells(section, "options") {
        set_option(config, key, value);
        return;
    } else if spells(section, "keys.normal") {
        config.keys_normal.push((string_of(key), string_of(value)));
        assert(text_pairs(config.keys_normal@) =~= text_pairs(old(config).keys_normal@).push((key@, value@)));
        return;
    } else if spells(section, "keys.insert") {
        config.keys_insert.push((string_of(key), string_of(value)));
        assert(text_pairs(config.keys_insert@) =~= text_pairs(old(config).keys_insert@).push((key@, value@)));
        return;
    } else if spells(section, "lsp") {
        config.lsp.push((string_of(key), string_of(value)));
        assert(text_pairs(config.lsp@) =~= text_pairs(old(config).lsp@).push((key@, value@)));
        return;
    } else if spells(section, "fmt") {
        config.fmt.push((string_of(key), string_of(value)));
        assert(text_pairs(config.fmt@) =~= text_pairs(old(config).fmt@).push((key@, value@)));
        return;
    }
}

/// Where reading the file stands: what was read so far, the section that is
/// open, and whether an `[lsp]` section was met.
pub struct Reading {
    pub config: ConfigView,
    pub section: Seq<char>,
    pub has_lsp: bool,
}

/// The name inside a `[section]` line.
pub open spec fn section_name(line: Seq<char>) -> Option<Seq<char>> {
    match without_prefix(line, "["@) {
        Some(rest) => match without_suffix(rest, "]"@) {
            Some(name) => Some(trim(name)),
            None => None,
        },
        None => None,
    }
}

pub open spec fn read_line(st: Reading, raw: Seq<char>) -> Reading {
    let line = trim(without_comment(raw));
    if line.len() == 0 {
        st
    } else if let Some(name) = section_name(line) {
        Reading { section: name, has_lsp: st.has_lsp || name == "lsp"@, ..st }
    } else if let Some((key, value)) = key_value(line) {
        Reading { config: with_entry(st.config, st.section, key, value), ..st }
    } else {
        st
    }
}

/// The state after the first `n` lines.
pub open spec fn read_lines(all: Seq<Seq<char>>, n: nat) -> Reading
    decreases n,
{
    if n == 0 || n > all.len() {
        Reading {
            config: ConfigView { lsp: Seq::empty(), ..default_config() },
            section: Seq::empty(),
            has_lsp: false,
        }
    } else {
        read_line(read_lines(all, (n - 1) as nat), all[n - 1])
    }
}

/// The config that a file's text holds. An `[lsp]` section replaces the
/// default table of language servers as a whole; without one it stays.
pub open spec fn parsed(text: Seq<char>) -> ConfigView {
    let end = read_lines(lines(text), lines(text).len());
    if end.has_lsp {
        end.config
    } else {
        ConfigView { lsp: default_lsp(), ..end.config }
    }
}

/// The config that a file's text holds.
pub fn parse(text: &str) -> (r: Config)
    ensures
        r@ == parsed(text@),
{
    let chars = chars_of(text);
    let all = lines_of(chars.as_slice());
    let mut config = Config::default();
    config.lsp = Vec::new();
    let mut has_lsp = false;
    let mut section: Vec<char> = Vec::new();
    let mut i: usize = 0;
    assert(text_pairs(config.lsp@) =~= Seq::empty());
    assert(section@ =~= Seq::empty());
    while i < all.len()
        invariant
            i <= all@.len(),
            read_lines(slices(all@), i as nat) == (Reading {
                config: config@,
                section: section@,
                has_lsp,
            }),
        decreases all@.len() - i,
    {
        let line = trimmed(strip_comment(all[i]));
        let ghost before = Reading { config: config@, section: section@, has_lsp };
        if line.len() > 0 {
            let name: Option<&[char]> = match strip_prefix(line, "[") {
                Some(rest) => strip_suffix(rest, "]"),
                None => None,
            };
            match name {
                Some(name) => {
                    section = vstd::slice::slice_to_vec(trimmed(name));
                    if spells(section.as_slice(), "lsp") {
                        has_lsp = true;
                    }
                },
                None => {
                    match split_kv(line) {
                        Some((key, value)) => {
                            set_entry(&mut config, section.as_slice(), key, value);
                        },
                        None => {},
                    }
                },
            }
        }
        assert((Reading { config: config@, section: section@, has_lsp }) == read_line(
            before,
            slices(all@)[i as int],
        ));
        i += 1;
    }
    if !has_lsp {
        let fresh = Config::default();
        config.lsp = fresh.lsp;
    }
    config
}

// ---- formatters and the shell -----------------------------------------------

/// The value of the first pair from `i` on whose key is `key`.
pub open spec fn lookup_from(
    table: Seq<(Seq<char>, Seq<char>)>,
    key: Seq<char>,
    i: int,
) -> Option<Seq<char>>
    decreases table.len() - i,
{
    if i < 0 || i >= table.len() {
        None
    } else if table[i].0 == key {
        Some(table[i].1)
    } else {
        lookup_from(table, key, i + 1)
    }
}

/// The value of the first pair whose key is `key`.
pub fn lookup(table: &Vec<(String, String)>, key: &str) -> (r: Option<String>)
    ensures
        opt_text(r) == lookup_from(text_pairs(table@), key@, 0),
{
    let mut i: usize = 0;
    while i < table.len()
        invariant
            i <= table@.len(),
            lookup_from(text_pairs(table@), key@, 0) == lookup_from(
                text_pairs(table@),
                key@,
                i as int,
            ),
        decreases table@.len() - i,
    {
        if same(table[i].0.as_str(), key) {
            return Some(table[i].1.clone());
        }
        i += 1;
    }
    None
}

/// The formatter of a file extension: config entries first, then the
/// built-in table.
pub open spec fn formatter_of(
    fmt: Seq<(Seq<char>, Seq<char>)>,
    ext: Seq<char>,
) -> Option<Seq<char>> {
    match lookup_from(fmt, ext, 0) {
        Some(command) => Some(command),
        None => builtin_fmt_of(ext),
    }
}

/// The formatter command line for a file extension: config entries first,
/// then the built-in table.
pub fn formatter(options: &Options, ext: &str) -> (r: Option<String>)
    ensures
        opt_text(r) == formatter_of(options@.fmt, ext@),
{
    match lookup(&options.fmt, ext) {
        Some(command) => Some(command),
        None => match builtin_fmt(ext) {
            Some(command) => Some(command.to_owned()),
            None => None,
        },
    }
}

/// The line that the terminal split runs: the config's `shell`, else
/// `$SHELL`, else `/bin/sh`.
pub open spec fn shell_line(configured: Seq<char>, from_env: Option<Seq<char>>) -> Seq<char> {
    if trim(configured).len() > 0 {
        configured
    } else {
        match from_env {
            Some(s) if trim(s).len() > 0 => s,
            _ => "/bin/sh"@,
        }
    }
}

/// The program and arguments of a command line split on white space.
pub open spec fn program_and_args(line: Seq<char>) -> (Seq<char>, Seq<Seq<char>>) {
    let w = words(line);
    if w.len() == 0 {
        ("/bin/sh"@, Seq::empty())
    } else {
        (w[0], w.skip(1))
    }
}

/// The program and arguments the terminal split runs: the config's `shell`
/// (split on whitespace, so `bash --login` works), else `$SHELL`, which is
/// `from_env`, else `/bin/sh`.
pub fn shell(options: &Options, from_env: Option<String>) -> (r: (String, Vec<String>))
    ensures
        (r.0@, texts(r.1@)) == program_and_args(
            shell_line(options@.shell, opt_text(from_env)),
        ),
{
    let configured = chars_of(options.shell.as_str());
    let mut line: Vec<char> = Vec::new();
    let mut chosen = false;
    if trimmed(configured.as_slice()).len() > 0 {
        line = configured;
        chosen = true;
    } else {
        match from_env {
            Some(s) => {
                let c = chars_of(s.as_str());
                if trimmed(c.as_slice()).len() > 0 {
                    line = c;
                    chosen = true;
                }
            },
            None => {},
        }
    }
    if !chosen {
        push_lit(&mut line, "/bin/sh");
        assert(line@ =~= "/bin/sh"@);
    }
    let w = words_of(line.as_slice());
    let mut args: Vec<String> = Vec::new();
    if w.len() == 0 {
        assert(slices(w@).len() == 0);
        assert(texts(args@) =~= Seq::<Seq<char>>::empty());
        return ("/bin/sh".to_owned(), args);
    }
    let program = string_of(w[0]);
    let mut i: usize = 1;
    while i < w.len()
        invariant
            1 <= i <= w@.len(),
            args@.len() == i - 1,
            forall|k: int| 0 <= k < i - 1 ==> args@[k]@ == w@[k + 1]@,
        decreases w@.len() - i,
    {
        args.push(string_of(w[i]));
        i += 1;
    }
    assert(slices(w@)[0] == w@[0]@);
    assert(texts(args@) =~= slices(w@).skip(1));
    (program, args)
}

// ---- installing missing tools -------------------------------------------------

/// A package manager crow can install through.
#[derive(Clone, Copy, PartialEq, Eq, Structural, Debug)]
pub enum Pm {
    Brew,
    /// Raven's manager: a pacman front-end, so it carries pacman's packages.
    Rvn,
    Apt,
    Dnf,
    Pacman,
    Zypper,
    Apk,
}

/// What there is to know of the machine before anything is installed on it.
#[derive(Clone, Copy)]
pub struct Machine {
    pub macos: bool,
    /// Already root: the package manager needs no `sudo`.
    pub root: bool,
    /// rvn's daemon is up, and does the privileged work itself.
    pub rvnd: bool,
    /// Which managers are on PATH.
    pub has_rvn: bool,
    pub has_pacman: bool,
    pub has_apt: bool,
    pub has_dnf: bool,
    pub has_zypper: bool,
    pub has_apk: bool,
    pub has_brew: bool,
}

/// The manager's own command line for installing `pkg`, asking nothing.
pub open spec fn manager_line(pm: Pm, pkg: Seq<char>) -> Seq<char> {
    match pm {
        Pm::Brew => "brew install "@ + pkg,
        Pm::Rvn => "rvn install -y "@ + pkg,
        Pm::Apt => "apt-get install -y "@ + pkg,
        Pm::Dnf => "dnf install -y "@ + pkg,
        Pm::Pacman => "pacman -S --needed --noconfirm "@ + pkg,
        Pm::Zypper => "zypper --non-interactive install "@ + pkg,
        Pm::Apk => "apk add "@ + pkg,
    }
}

/// Homebrew owns its own prefix; every system manager writes into system
/// directories and needs root, except rvn when its daemon is up.
pub open spec fn needs_root(pm: Pm, machine: Machine) -> bool {
    match pm {
        Pm::Brew => false,
        Pm::Rvn => !machine.rvnd,
        _ => true,
    }
}

pub open spec fn install_line(pm: Pm, pkg: Seq<char>, machine: Machine) -> Seq<char> {
    if needs_root(pm, machine) && !machine.root {
        "sudo "@ + manager_line(pm, pkg)
    } else {
        manager_line(pm, pkg)
    }
}

impl Pm {
    /// The shell command that installs `pkg`, asking nothing, with `sudo`
    /// before it where the manager needs root and we are not root.
    pub fn install(self, pkg: &str, machine: &Machine) -> (r: String)
        ensures
            r@ == install_line(self, pkg@, *machine),
    {
        let mut line: Vec<char> = Vec::new();
        let root = match self {
            Pm::Brew => false,
            Pm::Rvn => !machine.rvnd,
            _ => true,
        };
        if root && !machine.root {
            push_lit(&mut line, "sudo ");
        }
        match self {
            Pm::Brew => push_lit(&mut line, "brew install "),
            Pm::Rvn => push_lit(&mut line, "rvn install -y "),
            Pm::Apt => push_lit(&mut line, "apt-get install -y "),
            Pm::Dnf => push_lit(&mut line, "dnf install -y "),
            Pm::Pacman => push_lit(&mut line, "pacman -S --needed --noconfirm "),
            Pm::Zypper => push_lit(&mut line, "zypper --non-interactive install "),
            Pm::Apk => push_lit(&mut line, "apk add "),
        }
        push_lit(&mut line, pkg);
        assert(line@ =~= install_line(self, pkg@, *machine));
        string_of(line.as_slice())
    }
}

/// The manager of a machine: Homebrew on macOS; elsewhere the distro's own
/// manager wins even when Homebrew is installed beside it, and rvn comes
/// before the pacman it wraps.
pub open spec fn manager_of(machine: Machine) -> Option<Pm> {
    if machine.macos {
        Some(Pm::Brew)
    } else if machine.has_rvn {
        Some(Pm::Rvn)
    } else if machine.has_pacman {
        Some(Pm::Pacman)
    } else if machine.has_apt {
        Some(Pm::Apt)
    } else if machine.has_dnf {
        Some(Pm::Dnf)
    } else if machine.has_zypper {
        Some(Pm::Zypper)
    } else if machine.has_apk {
        Some(Pm::Apk)
    } else if machine.has_brew {
        Some(Pm::Brew)
    } else {
        None
    }
}

/// The manager to install through, worked out from what is on PATH.
pub fn package_manager(machine: &Machine) -> (r: Option<Pm>)
    ensures
        r == manager_of(*machine),
{
    if machine.macos {
        Some(Pm::Brew)
    } else if machine.has_rvn {
        Some(Pm::Rvn)
    } else if machine.has_pacman {
        Some(Pm::Pacman)
    } else if machine.has_apt {
        Some(Pm::Apt)
    } else if machine.has_dnf {
        Some(Pm::Dnf)
    } else if machine.has_zypper {
        Some(Pm::Zypper)
    } else if machine.has_apk {
        Some(Pm::Apk)
    } else if machine.has_brew {
        Some(Pm::Brew)
    } else {
        None
    }
}

/// rvn installs from pacman's repositories, so a package is called whatever
/// pacman calls it: one column in the table covers both.
pub open spec fn table_column(pm: Pm) -> Pm {
    match pm {
        Pm::Rvn => Pm::Pacman,
        _ => pm,
    }
}

/// What installs `program`: the ecosystem's own command where it ships the
/// tool; else this machine's manager where that has a package; else a build
/// from the tool's own ecosystem; else Homebrew where the machine has it.
pub open spec fn install_of(
    program: Seq<char>,
    pm: Option<Pm>,
    machine: Machine,
) -> Option<Seq<char>> {
    if let Some(cmd) = ecosystem_installer_of(program) {
        Some(cmd)
    } else if pm is Some && package_under(program, table_column(pm->0)) is Some {
        Some(install_line(pm->0, package_under(program, table_column(pm->0))->0, machine))
    } else if let Some(cmd) = source_build_of(program) {
        Some(cmd)
    } else if machine.has_brew && package_under(program, Pm::Brew) is Some {
        Some(install_line(Pm::Brew, package_under(program, Pm::Brew)->0, machine))
    } else {
        None
    }
}

/// The command that installs `program` through the manager `pm`.
pub fn install_command(program: &str, pm: Option<Pm>, machine: &Machine) -> (r: Option<String>)
    ensures
        opt_text(r) == install_of(program@, pm, *machine),
{
    if let Some(cmd) = ecosystem_installer(program) {
        return Some(cmd.to_owned());
    }
    if let Some(pm) = pm {
        let column = match pm {
            Pm::Rvn => Pm::Pacman,
            _ => pm,
        };
        if let Some(name) = package_name(program, column) {
            return Some(pm.install(name, machine));
        }
    }
    if let Some(cmd) = source_build(program) {
        return Some(cmd.to_owned());
    }
    if machine.has_brew {
        if let Some(name) = package_name(program, Pm::Brew) {
            return Some(Pm::Brew.install(name, machine));
        }
    }
    None
}

/// The shell command that installs `program` on this machine, if we know one.
pub fn installer(program: &str, machine: &Machine) -> (r: Option<String>)
    ensures
        opt_text(r) == install_of(program@, manager_of(*machine), *machine),
{
    install_command(program, package_manager(machine), machine)
}

// ---- recent files -----------------------------------------------------------

/// The files of the list that are not `path`, among the first `n`.
pub open spec fn others_upto(recent: Seq<Seq<char>>, path: Seq<char>, n: nat) -> Seq<Seq<char>>
    decreases n,
{
    if n == 0 || n > recent.len() {
        Seq::empty()
    } else if recent[n - 1] == path {
        others_upto(recent, path, (n - 1) as nat)
    } else {
        others_upto(recent, path, (n - 1) as nat).push(recent[n - 1])
    }
}

/// The recent-files list once `path` was opened: it moves to the front, and
/// the list keeps 50 entries.
pub open spec fn recent_after(recent: Seq<Seq<char>>, path: Seq<char>) -> Seq<Seq<char>> {
    let all = seq![path] + others_upto(recent, path, recent.len());
    if all.len() > 50 {
        all.take(50)
    } else {
        all
    }
}

/// Move `path` to the front of the recent-files list.
pub fn record_recent(recent: &Vec<String>, path: &str) -> (out: Vec<String>)
    ensures
        texts(out@) == recent_after(texts(recent@), path@),
{
    let mut out: Vec<String> = Vec::new();
    out.push(path.to_owned());
    let mut i: usize = 0;
    assert(texts(out@) =~= seq![path@] + others_upto(texts(recent@), path@, 0));
    while i < recent.len()
        invariant
            i <= recent@.len(),
            texts(out@) =~= seq![path@] + others_upto(texts(recent@), path@, i as nat),
        decreases recent@.len() - i,
    {
        let ghost before = out@;
        assert(texts(recent@)[i as int] == recent@[i as int]@);
        if !same(recent[i].as_str(), path) {
            out.push(recent[i].clone());
            assert(texts(out@) =~= texts(before).push(recent@[i as int]@));
        }
        i += 1;
    }
    let ghost all = texts(out@);
    if out.len() > 50 {
        out.truncate(50);
        assert(texts(out@) =~= all.take(50));
    }
    out
}

// ---- tables ------------------------------------------------------------------

/// The built-in formatter of a file extension.
pub open spec fn builtin_fmt_of(key: Seq<char>) -> Option<Seq<char>> {
    if key == "rs"@ {
        Some("rustfmt --edition 2021"@)
    } else if key == "oxi"@ {
        Some("oxigen fmt {tmp}"@)
    } else if key == "go"@ {
        Some("gofmt"@)
    } else if key == "py"@ {
        Some("black -q -"@)
    } else if key == "sh"@ || key == "bash"@ {
        Some("shfmt"@)
    } else if key == "zig"@ {
        Some("zig fmt --stdin"@)
    } else if key == "lua"@ {
        Some("stylua -"@)
    } else if key == "toml"@ {
        Some("taplo fmt -"@)
    } else if key == "odin"@ {
        Some("odinfmt -stdin"@)
    } else if key == "c"@ || key == "h"@ || key == "cpp"@ || key == "hpp"@ || key == "cc"@ || key == "cxx"@ || key == "hh"@ || key == "java"@ {
        Some("clang-format --assume-filename={file}"@)
    } else if key == "js"@ || key == "jsx"@ || key == "mjs"@ || key == "cjs"@ || key == "ts"@ || key == "mts"@ || key == "tsx"@ || key == "json"@ || key == "css"@ || key == "html"@ || key == "htm"@ || key == "md"@ || key == "markdown"@ || key == "yml"@ || key == "yaml"@ {
        Some("prettier --stdin-filepath {file}"@)
    } else {
        None
    }
}

/// Built-in formatters, all reading the buffer on stdin and writing the
/// result to stdout. `{file}` becomes the buffer's path (for tools that
/// pick style/parser from the filename); `{tmp}` becomes a throwaway copy of
/// the buffer, for tools that only rewrite files in place.
fn builtin_fmt(key: &str) -> (r: Option<&'static str>)
    ensures
        opt_str(r) == builtin_fmt_of(key@),
{
    if same(key, "rs") {
        Some("rustfmt --edition 2021")
    } else if same(key, "oxi") {
        Some("oxigen fmt {tmp}")
    } else if same(key, "go") {
        Some("gofmt")
    } else if same(key, "py") {
        Some("black -q -")
    } else if same(key, "sh") || same(key, "bash") {
        Some("shfmt")
    } else if same(key, "zig") {
        Some("zig fmt --stdin")
    } else if same(key, "lua") {
        Some("stylua -")
    } else if same(key, "toml") {
        Some("taplo fmt -")
    } else if same(key, "odin") {
        Some("odinfmt -stdin")
    } else if same(key, "c") || same(key, "h") || same(key, "cpp") || same(key, "hpp") || same(key, "cc") || same(key, "cxx") || same(key, "hh") || same(key, "java") {
        Some("clang-format --assume-filename={file}")
    } else if same(key, "js") || same(key, "jsx") || same(key, "mjs") || same(key, "cjs") || same(key, "ts") || same(key, "mts") || same(key, "tsx") || same(key, "json") || same(key, "css") || same(key, "html") || same(key, "htm") || same(key, "md") || same(key, "markdown") || same(key, "yml") || same(key, "yaml") {
        Some("prettier --stdin-filepath {file}")
    } else {
        None
    }
}

/// The built-in language server of a file extension.
pub open spec fn builtin_lsp_of(key: Seq<char>) -> Option<Seq<char>> {
    if key == "rs"@ {
        Some("rust-analyzer"@)
    } else if key == "oxi"@ {
        Some("oxigen-lsp"@)
    } else if key == "py"@ {
        Some("pyright-langserver --stdio"@)
    } else if key == "go"@ {
        Some("gopls"@)
    } else if key == "js"@ || key == "jsx"@ || key == "mjs"@ || key == "cjs"@ || key == "ts"@ || key == "mts"@ || key == "tsx"@ {
        Some("typescript-language-server --stdio"@)
    } else if key == "c"@ || key == "h"@ || key == "cpp"@ || key == "hpp"@ || key == "cc"@ || key == "cxx"@ || key == "hh"@ {
        Some("clangd"@)
    } else if key == "sh"@ || key == "bash"@ {
        Some("bash-language-server start"@)
    } else if key == "lua"@ {
        Some("lua-language-server"@)
    } else if key == "zig"@ {
        Some("zls"@)
    } else if key == "odin"@ {
        Some("ols"@)
    } else if key == "java"@ {
        Some("jdtls"@)
    } else if key == "rb"@ {
        Some("ruby-lsp"@)
    } else if key == "php"@ {
        Some("intelephense --stdio"@)
    } else if key == "md"@ || key == "markdown"@ {
        Some("marksman server"@)
    } else if key == "toml"@ {
        Some("taplo lsp stdio"@)
    } else if key == "yml"@ || key == "yaml"@ {
        Some("yaml-language-server --stdio"@)
    } else if key == "json"@ {
        Some("vscode-json-language-server --stdio"@)
    } else if key == "css"@ {
        Some("vscode-css-language-server --stdio"@)
    } else if key == "html"@ || key == "htm"@ {
        Some("vscode-html-language-server --stdio"@)
    } else {
        None
    }
}

/// The built-in language server command for a file extension, used when
/// the config's `[lsp]` section has no entry for it.
pub fn builtin_lsp(ext: &str) -> (r: Option<&'static str>)
    ensures
        opt_str(r) == builtin_lsp_of(ext@),
{
    if same(ext, "rs") {
        Some("rust-analyzer")
    } else if same(ext, "oxi") {
        Some("oxigen-lsp")
    } else if same(ext, "py") {
        Some("pyright-langserver --stdio")
    } else if same(ext, "go") {
        Some("gopls")
    } else if same(ext, "js") || same(ext, "jsx") || same(ext, "mjs") || same(ext, "cjs") || same(ext, "ts") || same(ext, "mts") || same(ext, "tsx") {
        Some("typescript-language-server --stdio")
    } else if same(ext, "c") || same(ext, "h") || same(ext, "cpp") || same(ext, "hpp") || same(ext, "cc") || same(ext, "cxx") || same(ext, "hh") {
        Some("clangd")
    } else if same(ext, "sh") || same(ext, "bash") {
        Some("bash-language-server start")
    } else if same(ext, "lua") {
        Some("lua-language-server")
    } else if same(ext, "zig") {
        Some("zls")
    } else if same(ext, "odin") {
        Some("ols")
    } else if same(ext, "java") {
        Some("jdtls")
    } else if same(ext, "rb") {
        Some("ruby-lsp")
    } else if same(ext, "php") {
        Some("intelephense --stdio")
    } else if same(ext, "md") || same(ext, "markdown") {
        Some("marksman server")
    } else if same(ext, "toml") {
        Some("taplo lsp stdio")
    } else if same(ext, "yml") || same(ext, "yaml") {
        Some("yaml-language-server --stdio")
    } else if same(ext, "json") {
        Some("vscode-json-language-server --stdio")
    } else if same(ext, "css") {
        Some("vscode-css-language-server --stdio")
    } else if same(ext, "html") || same(ext, "htm") {
        Some("vscode-html-language-server --stdio")
    } else {
        None
    }
}

/// How a tool that its own ecosystem ships is installed, the same on every platform.
pub open spec fn ecosystem_installer_of(key: Seq<char>) -> Option<Seq<char>> {
    if key == "prettier"@ {
        Some("npm install -g prettier"@)
    } else if key == "rustfmt"@ {
        Some("rustup component add rustfmt"@)
    } else if key == "rust-analyzer"@ {
        Some("rustup component add rust-analyzer"@)
    } else if key == "pyright-langserver"@ {
        Some("npm install -g pyright"@)
    } else if key == "typescript-language-server"@ {
        Some("npm install -g typescript typescript-language-server"@)
    } else if key == "bash-language-server"@ {
        Some("npm install -g bash-language-server"@)
    } else if key == "yaml-language-server"@ {
        Some("npm install -g yaml-language-server"@)
    } else if key == "vscode-json-language-server"@ || key == "vscode-css-language-server"@ || key == "vscode-html-language-server"@ {
        Some("npm install -g vscode-langservers-extracted"@)
    } else if key == "ruby-lsp"@ {
        Some("gem install ruby-lsp"@)
    } else if key == "intelephense"@ {
        Some("npm install -g intelephense"@)
    } else if key == "oxigen"@ {
        Some(OXIGEN_BUILD@)
    } else if key == "oxigen-lsp"@ {
        Some(OXIGEN_LSP_BUILD@)
    } else {
        None
    }
}

/// How a tool that its own ecosystem ships is installed, the same on every platform.
fn ecosystem_installer(key: &str) -> (r: Option<&'static str>)
    ensures
        opt_str(r) == ecosystem_installer_of(key@),
{
    if same(key, "prettier") {
        Some("npm install -g prettier")
    } else if same(key, "rustfmt") {
        Some("rustup component add rustfmt")
    } else if same(key, "rust-analyzer") {
        Some("rustup component add rust-analyzer")
    } else if same(key, "pyright-langserver") {
        Some("npm install -g pyright")
    } else if same(key, "typescript-language-server") {
        Some("npm install -g typescript typescript-language-server")
    } else if same(key, "bash-language-server") {
        Some("npm install -g bash-language-server")
    } else if same(key, "yaml-language-server") {
        Some("npm install -g yaml-language-server")
    } else if same(key, "vscode-json-language-server") || same(key, "vscode-css-language-server") || same(key, "vscode-html-language-server") {
        Some("npm install -g vscode-langservers-extracted")
    } else if same(key, "ruby-lsp") {
        Some("gem install ruby-lsp")
    } else if same(key, "intelephense") {
        Some("npm install -g intelephense")
    } else if same(key, "oxigen") {
        Some(OXIGEN_BUILD)
    } else if same(key, "oxigen-lsp") {
        Some(OXIGEN_LSP_BUILD)
    } else {
        None
    }
}

/// The package that carries `program` under `pm`, where that manager has it.
pub open spec fn package_under(program: Seq<char>, pm: Pm) -> Option<Seq<char>> {
    if program == "gofmt"@ {
        match pm {
            Pm::Brew => Some("go"@),
            Pm::Apt => Some("golang-go"@),
            Pm::Dnf => Some("golang"@),
            Pm::Pacman => Some("go"@),
            Pm::Zypper => Some("go"@),
            Pm::Apk => Some("go"@),
            _ => None,
        }
    } else if program == "gopls"@ {
        match pm {
            Pm::Brew => Some("gopls"@),
            Pm::Pacman => Some("gopls"@),
            _ => None,
        }
    } else if program == "black"@ {
        match pm {
            Pm::Brew => Some("black"@),
            Pm::Apt => Some("black"@),
            Pm::Dnf => Some("python3-black"@),
            Pm::Pacman => Some("python-black"@),
            Pm::Zypper => Some("python3-black"@),
            Pm::Apk => Some("py3-black"@),
            _ => None,
        }
    } else if program == "ruff"@ {
        match pm {
            Pm::Brew => Some("ruff"@),
            Pm::Apt => Some("ruff"@),
            Pm::Dnf => Some("ruff"@),
            Pm::Pacman => Some("ruff"@),
            Pm::Apk => Some("ruff"@),
            _ => None,
        }
    } else if program == "shfmt"@ {
        match pm {
            Pm::Brew => Some("shfmt"@),
            Pm::Apt => Some("shfmt"@),
            Pm::Dnf => Some("shfmt"@),
            Pm::Pacman => Some("shfmt"@),
            Pm::Apk => Some("shfmt"@),
            _ => None,
        }
    } else if program == "stylua"@ {
        match pm {
            Pm::Brew => Some("stylua"@),
            Pm::Pacman => Some("stylua"@),
            _ => None,
        }
    } else if program == "taplo"@ {
        match pm {
            Pm::Brew => Some("taplo"@),
            _ => None,
        }
    } else if program == "clang-format"@ {
        match pm {
            Pm::Brew => Some("clang-format"@),
            Pm::Apt => Some("clang-format"@),
            Pm::Dnf => Some("clang-tools-extra"@),
            Pm::Pacman => Some("clang"@),
            Pm::Zypper => Some("clang-tools"@),
            Pm::Apk => Some("clang-extra-tools"@),
            _ => None,
        }
    } else if program == "clangd"@ {
        match pm {
            Pm::Brew => Some("llvm"@),
            Pm::Apt => Some("clangd"@),
            Pm::Dnf => Some("clang-tools-extra"@),
            Pm::Pacman => Some("clang"@),
            Pm::Zypper => Some("clang-tools"@),
            Pm::Apk => Some("clang-extra-tools"@),
            _ => None,
        }
    } else if program == "zig"@ {
        match pm {
            Pm::Brew => Some("zig"@),
            Pm::Dnf => Some("zig"@),
            Pm::Pacman => Some("zig"@),
            Pm::Zypper => Some("zig"@),
            Pm::Apk => Some("zig"@),
            _ => None,
        }
    } else if program == "zls"@ {
        match pm {
            Pm::Brew => Some("zls"@),
            Pm::Pacman => Some("zls"@),
            _ => None,
        }
    } else if program == "ols"@ {
        match pm {
            Pm::Brew => Some("ols"@),
            _ => None,
        }
    } else if program == "odinfmt"@ {
        match pm {
            Pm::Brew => Some("ols"@),
            _ => None,
        }
    } else if program == "jdtls"@ {
        match pm {
            Pm::Brew => Some("jdtls"@),
            _ => None,
        }
    } else if program == "lua-language-server"@ {
        match pm {
            Pm::Brew => Some("lua-language-server"@),
            Pm::Apt => Some("lua-language-server"@),
            Pm::Dnf => Some("lua-language-server"@),
            Pm::Pacman => Some("lua-language-server"@),
            _ => None,
        }
    } else if program == "marksman"@ {
        match pm {
            Pm::Brew => Some("marksman"@),
            _ => None,
        }
    } else {
        None
    }
}

/// The package that carries `program` under `pm`, where that manager has it.
fn package_name(program: &str, pm: Pm) -> (r: Option<&'static str>)
    ensures
        opt_str(r) == package_under(program@, pm),
{
    if same(program, "gofmt") {
        match pm {
            Pm::Brew => Some("go"),
            Pm::Apt => Some("golang-go"),
            Pm::Dnf => Some("golang"),
            Pm::Pacman => Some("go"),
            Pm::Zypper => Some("go"),
            Pm::Apk => Some("go"),
            _ => None,
        }
    } else if same(program, "gopls") {
        match pm {
            Pm::Brew => Some("gopls"),
            Pm::Pacman => Some("gopls"),
            _ => None,
        }
    } else if same(program, "black") {
        match pm {
            Pm::Brew => Some("black"),
            Pm::Apt => Some("black"),
            Pm::Dnf => Some("python3-black"),
            Pm::Pacman => Some("python-black"),
            Pm::Zypper => Some("python3-black"),
            Pm::Apk => Some("py3-black"),
            _ => None,
        }
    } else if same(program, "ruff") {
        match pm {
            Pm::Brew => Some("ruff"),
            Pm::Apt => Some("ruff"),
            Pm::Dnf => Some("ruff"),
            Pm::Pacman => Some("ruff"),
            Pm::Apk => Some("ruff"),
            _ => None,
        }
    } else if same(program, "shfmt") {
        match pm {
            Pm::Brew => Some("shfmt"),
            Pm::Apt => Some("shfmt"),
            Pm::Dnf => Some("shfmt"),
            Pm::Pacman => Some("shfmt"),
            Pm::Apk => Some("shfmt"),
            _ => None,
        }
    } else if same(program, "stylua") {
        match pm {
            Pm::Brew => Some("stylua"),
            Pm::Pacman => Some("stylua"),
            _ => None,
        }
    } else if same(program, "taplo") {
        match pm {
            Pm::Brew => Some("taplo"),
            _ => None,
        }
    } else if same(program, "clang-format") {
        match pm {
            Pm::Brew => Some("clang-format"),
            Pm::Apt => Some("clang-format"),
            Pm::Dnf => Some("clang-tools-extra"),
            Pm::Pacman => Some("clang"),
            Pm::Zypper => Some("clang-tools"),
            Pm::Apk => Some("clang-extra-tools"),
            _ => None,
        }
    } else if same(program, "clangd") {
        match pm {
            Pm::Brew => Some("llvm"),
            Pm::Apt => Some("clangd"),
            Pm::Dnf => Some("clang-tools-extra"),
            Pm::Pacman => Some("clang"),
            Pm::Zypper => Some("clang-tools"),
            Pm::Apk => Some("clang-extra-tools"),
            _ => None,
        }
    } else if same(program, "zig") {
        match pm {
            Pm::Brew => Some("zig"),
            Pm::Dnf => Some("zig"),
            Pm::Pacman => Some("zig"),
            Pm::Zypper => Some("zig"),
            Pm::Apk => Some("zig"),
            _ => None,
        }
    } else if same(program, "zls") {
        match pm {
            Pm::Brew => Some("zls"),
            Pm::Pacman => Some("zls"),
            _ => None,
        }
    } else if same(program, "ols") {
        match pm {
            Pm::Brew => Some("ols"),
            _ => None,
        }
    } else if same(program, "odinfmt") {
        match pm {
            Pm::Brew => Some("ols"),
            _ => None,
        }
    } else if same(program, "jdtls") {
        match pm {
            Pm::Brew => Some("jdtls"),
            _ => None,
        }
    } else if same(program, "lua-language-server") {
        match pm {
            Pm::Brew => Some("lua-language-server"),
            Pm::Apt => Some("lua-language-server"),
            Pm::Dnf => Some("lua-language-server"),
            Pm::Pacman => Some("lua-language-server"),
            _ => None,
        }
    } else if same(program, "marksman") {
        match pm {
            Pm::Brew => Some("marksman"),
            _ => None,
        }
    } else {
        None
    }
}

/// The build from a tool's own ecosystem, for a machine whose manager lacks it.
pub open spec fn source_build_of(key: Seq<char>) -> Option<Seq<char>> {
    if key == "gopls"@ {
        Some("go install golang.org/x/tools/gopls@latest"@)
    } else if key == "black"@ {
        Some("pipx install black"@)
    } else if key == "ruff"@ {
        Some("pipx install ruff"@)
    } else if key == "shfmt"@ {
        Some("go install mvdan.cc/sh/v3/cmd/shfmt@latest"@)
    } else if key == "stylua"@ {
        Some("cargo install stylua"@)
    } else if key == "taplo"@ {
        Some("cargo install taplo-cli --locked"@)
    } else {
        None
    }
}

/// The build from a tool's own ecosystem, for a machine whose manager lacks it.
fn source_build(key: &str) -> (r: Option<&'static str>)
    ensures
        opt_str(r) == source_build_of(key@),
{
    if same(key, "gopls") {
        Some("go install golang.org/x/tools/gopls@latest")
    } else if same(key, "black") {
        Some("pipx install black")
    } else if same(key, "ruff") {
        Some("pipx install ruff")
    } else if same(key, "shfmt") {
        Some("go install mvdan.cc/sh/v3/cmd/shfmt@latest")
    } else if same(key, "stylua") {
        Some("cargo install stylua")
    } else if same(key, "taplo") {
        Some("cargo install taplo-cli --locked")
    } else {
        None
    }
}

/// Oxigen ships no package: build it from its own repo, cached under
/// `~/.cache/crow`.
pub const OXIGEN_BUILD: &'static str = "git clone --depth 1 https://github.com/javanhut/OxigenLang.git ~/.cache/crow/OxigenLang || git -C ~/.cache/crow/OxigenLang pull --ff-only; make -C ~/.cache/crow/OxigenLang install";

pub const OXIGEN_LSP_BUILD: &'static str = "git clone --depth 1 https://github.com/javanhut/OxigenLang.git ~/.cache/crow/OxigenLang || git -C ~/.cache/crow/OxigenLang pull --ff-only; make -C ~/.cache/crow/OxigenLang install-lsp";

/// What the first run writes: every option at its default, with a comment.
pub const TEMPLATE: &'static str = r#"# crow.toml — crow's config. Everything here is optional;
# delete a line and the default comes back.

theme = "tokyonight"     # tokyonight | gruvbox | mono | default (terminal colors)

[options]
tab_width = 4
scrolloff = 3
autoclose = true         # type ( [ { " ' and the closer appears
icons = true             # Nerd Font file icons in the tree (needs a Nerd Font)
format_on_save = true    # pipe the buffer through its [fmt] formatter on :w
show_hidden = false      # dotfiles, .git, and build dirs everywhere (toggle: . in the tree, :toggle_hidden)
soft_wrap = true         # wrap long lines instead of scrolling sideways (toggle: :wrap)
trailing_whitespace = true          # tint spaces left at the end of a line
strip_trailing_whitespace = true    # and cut them on :w (never in markdown, where they mean a line break)
persistent_undo = true   # undo history survives closing the file
swap_files = true        # unsaved edits are written aside; :recover brings them back after a crash
mouse = true             # click, drag to select, wheel to scroll (shift+drag for the terminal's own selection)
auto_reload = true       # a file changed on disk reloads if you haven't edited it
vcs_gutter = true        # added/changed/deleted markers against the last ivaldi seal
# shell = "zsh"          # what space t / :term runs (default: $SHELL, then /bin/sh)

# Language servers: file extension = server command. crow starts the first
# server whose extension matches an open file.
[lsp]
rs = "rust-analyzer"
# py = "pyright-langserver --stdio"
# go = "gopls"
# oxi = "oxigen-lsp"

# Extra keybindings: "sequence" = "command". Any command callable with
# `:name` can be bound. Later bindings win over defaults.
# Modifiers: "Ctrl-" and "Alt-" (the short "C-"/"A-" forms also work).
[keys.normal]
# "gq" = "quit"
# "Ctrl-p" = "search"

[keys.insert]

# Formatters for :fmt — file extension = command reading stdin, writing
# stdout ({file} becomes the buffer's path). Common tools (rustfmt, gofmt,
# black, prettier, clang-format...) are built in; entries here override.
[fmt]
# py = "ruff format -"
"#;

} // verus!
