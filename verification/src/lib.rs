//! crow, a selection-first modal text editor, as a value: keys, pasted text,
//! mouse events and answers from outside go in through the methods of
//! `editor::Editor`, and what it asks of the outside is left in its `effects`.

use vstd::prelude::*;

pub mod act_laws;
pub mod acts;
pub mod answers;
pub mod autosave;
pub mod birth;
pub mod column_laws;
pub mod commands;
pub mod comment;
pub mod completion;
pub mod completion_laws;
pub mod config;
pub mod crates;
pub mod deps;
pub mod desk;
pub mod dispatch;
pub mod document;
pub mod editor;
pub mod edit_laws;
pub mod edits;
pub mod events;
pub mod ex;
pub mod files;
pub mod filetree;
pub mod help;
pub mod input;
pub mod json;
pub mod jumps;
pub mod keymap;
pub mod keymaps;
pub mod keys;
pub mod laws;
pub mod layout;
pub mod lsp;
pub mod lsp_parse;
pub mod marks;
pub mod motion_laws;
pub mod motions;
pub mod mouse;
pub mod moves;
pub mod object_laws;
pub mod objects;
pub mod palette;
pub mod paths;
pub mod picker;
pub mod picker_keys;
pub mod picker_laws;
pub mod pieces;
pub mod playback;
pub mod position;
pub mod problems;
pub mod prompts;
pub mod registers;
pub mod repeat;
pub mod replays;
pub mod requests;
pub mod run;
pub mod screen;
pub mod search;
pub mod search_laws;
pub mod selection_laws;
pub mod selections;
pub mod serve;
pub mod servers;
pub mod shell;
pub mod state;
pub mod steps;
pub mod strings;
pub mod strip;
pub mod substitute;
pub mod suggest;
pub mod surround;
pub mod surround_laws;
pub mod sync;
pub mod text;
pub mod tools;
pub mod transaction;
pub mod tree_files;
pub mod tree_keys;
pub mod typing;
pub mod upgrade;
pub mod upkeep;
pub mod view;
pub mod waits;
pub mod walk_laws;
pub mod watch;
pub mod windows;
pub mod workspace;

verus! {

} // verus!
