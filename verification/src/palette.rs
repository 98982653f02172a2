//! What the pickers of the commands, the themes and a directory list.

use vstd::prelude::*;
use crate::commands::{all_commands, commands, doc_of as command_doc, name_of, Command};
use crate::config::is_theme;
use crate::filetree::entry_views;
use crate::help::{line_op_keys, line_op_keys_of};
use crate::keymap::{is_bound_in, is_shortest, KeyTrie, Trie};
use crate::picker::new_picker;
use crate::state::{item_views, Item, Picker, PickerKind, PickerKindView};
use crate::strings::{chars_of, push_lit, put_name, string_of, texts, with_name};

verus! {

/// What a command does, behind the keys that run it.
pub open spec fn keys_and_doc(keys: Seq<char>, doc: Seq<char>) -> Seq<char> {
    if keys.len() == 0 {
        doc
    } else {
        keys + "  ·  "@ + doc
    }
}

/// Whether a row is the one of a command: with the shortest keys that are
/// bound to it, or the doubled keys that run it.
pub open spec fn row_tells(row: (Seq<char>, Seq<char>), c: Command, map: Trie) -> bool {
    &&& row.0 == name_of(c)
    &&& if is_bound_in(map, name_of(c)) {
        exists|keys: Seq<char>| #[trigger]
            is_shortest(map, Seq::empty(), name_of(c), keys) && row.1 == keys_and_doc(
                keys,
                command_doc(c),
            )
    } else {
        row.1 == keys_and_doc(line_op_keys_of(c), command_doc(c))
    }
}

fn detail(keys: &str, doc: &str) -> (r: String)
    ensures
        r@ == keys_and_doc(keys@, doc@),
{
    let mut v = chars_of(keys);
    if v.len() == 0 {
        return doc.to_owned();
    }
    push_lit(&mut v, "  ·  ");
    push_lit(&mut v, doc);
    string_of(&v)
}

fn command_row(c: Command, keymap: &KeyTrie) -> (r: Item)
    requires
        keymap.wf(),
    ensures
        row_tells((r.label@, r.detail@), c, keymap@),
{
    let keys = match keymap.binding_of(c.name()) {
        Some(k) => k,
        None => line_op_keys(c),
    };
    let r = Item { label: c.name().to_owned(), detail: detail(keys.as_str(), c.doc()) };
    assert(is_bound_in(keymap@, name_of(c)) ==> is_shortest(
        keymap@,
        Seq::empty(),
        name_of(c),
        keys@,
    ));
    r
}

impl Picker {
    /// The picker of the commands, with the keys that run them.
    pub fn commands(keymap: &KeyTrie) -> (r: Self)
        requires
            keymap.wf(),
        ensures
            r@ == new_picker("commands"@, PickerKindView::Command, r@.items),
            r@.items.len() == all_commands().len(),
            forall|i: int|
                0 <= i < all_commands().len() ==> row_tells(
                    #[trigger] r@.items[i],
                    all_commands()[i],
                    keymap@,
                ),
    {
        let all = commands();
        let mut items: Vec<Item> = Vec::new();
        let mut i: usize = 0;
        while i < all.len()
            invariant
                keymap.wf(),
                all@ == all_commands(),
                i <= all@.len(),
                items@.len() == i,
                forall|k: int|
                    0 <= k < i ==> row_tells(
                        #[trigger] item_views(items@)[k],
                        all_commands()[k],
                        keymap@,
                    ),
            decreases all@.len() - i,
        {
            let ghost had = items@;
            let row = command_row(all[i], keymap);
            let ghost v = (row.label@, row.detail@);
            items.push(row);
            assert(item_views(items@) =~= item_views(had).push(v));
            i += 1;
        }
        Picker::new("commands".to_owned(), PickerKind::Command, items)
    }
}

// ---- themes and directories -------------------------------------------------------

/// The names of the themes, in order.
pub open spec fn theme_names() -> Seq<Seq<char>> {
    seq!["default"@, "gruvbox"@, "mono"@, "tokyonight"@]
}

/// Rows with nothing beside their labels.
pub open spec fn bare_rows(labels: Seq<Seq<char>>) -> Seq<(Seq<char>, Seq<char>)> {
    Seq::new(labels.len(), |i: int| (labels[i], Seq::empty()))
}

/// The listed themes are the ones there are.
pub proof fn law_themes_listed(name: Seq<char>)
    ensures
        theme_names().contains(name) <==> is_theme(name),
{
    let t = theme_names();
    assert(t[0] == "default"@ && t[1] == "gruvbox"@ && t[2] == "mono"@ && t[3] == "tokyonight"@);
}

fn bare_row(label: &str) -> (r: Item)
    ensures
        r.label@ == label@,
        r.detail@ == Seq::<char>::empty(),
{
    Item { label: label.to_owned(), detail: String::new() }
}

/// The rows of the picker of the themes.
pub fn theme_rows() -> (r: Vec<Item>)
    ensures
        item_views(r@) == bare_rows(theme_names()),
{
    let mut out: Vec<Item> = Vec::new();
    out.push(bare_row("default"));
    out.push(bare_row("gruvbox"));
    out.push(bare_row("mono"));
    out.push(bare_row("tokyonight"));
    assert(item_views(out@) =~= bare_rows(theme_names()));
    out
}

/// An entry of a directory as it is listed: a directory ends in a slash.
pub open spec fn entry_label(entry: (Seq<char>, bool)) -> Seq<char> {
    if entry.1 {
        entry.0.push('/')
    } else {
        entry.0
    }
}

/// The first `n` entries of a directory, in order.
pub open spec fn labels_upto(entries: Seq<(Seq<char>, bool)>, n: nat) -> Seq<Seq<char>>
    decreases n,
{
    if n == 0 || n > entries.len() {
        Seq::empty()
    } else {
        with_name(labels_upto(entries, (n - 1) as nat), entry_label(entries[n - 1]), 0)
    }
}

/// The rows of the picker of a directory: the way up, and its entries.
pub fn explorer_rows(entries: &Vec<(String, bool)>) -> (r: Vec<Item>)
    ensures
        item_views(r@) == bare_rows(
            seq!["../"@] + labels_upto(entry_views(entries@), entries@.len()),
        ),
{
    let ghost all = entry_views(entries@);
    let mut names: Vec<String> = Vec::new();
    let mut i: usize = 0;
    assert(texts(names@) =~= Seq::empty());
    while i < entries.len()
        invariant
            i <= entries@.len(),
            all == entry_views(entries@),
            texts(names@) == labels_upto(all, i as nat),
        decreases entries@.len() - i,
    {
        assert(all[i as int] == (entries@[i as int].0@, entries@[i as int].1));
        let mut label = entries[i].0.clone();
        if entries[i].1 {
            label.push('/');
        }
        put_name(&mut names, label);
        i += 1;
    }
    let ghost labels = seq!["../"@] + texts(names@);
    let mut out: Vec<Item> = Vec::new();
    out.push(bare_row("../"));
    let mut k: usize = 0;
    assert(item_views(out@) =~= bare_rows(labels.take(1)));
    while k < names.len()
        invariant
            k <= names@.len(),
            labels == seq!["../"@] + texts(names@),
            item_views(out@) == bare_rows(labels.take(k + 1)),
        decreases names@.len() - k,
    {
        let ghost had = out@;
        let row = bare_row(names[k].as_str());
        let ghost v = (row.label@, row.detail@);
        out.push(row);
        assert(labels[k + 1] == names@[k as int]@);
        assert(item_views(out@) =~= item_views(had).push(v));
        assert(bare_rows(labels.take(k + 2)) =~= bare_rows(labels.take(k + 1)).push(v));
        k += 1;
    }
    assert(labels.take(labels.len() as int) =~= labels);
    out
}

} // verus!
