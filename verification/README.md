# crow

A selection-first modal text editor. `src/` is the editor itself, written in
Verus: every function there has a contract that says what it does, and Verus
proves it. `app/` puts it on a terminal, with files and processes around it.

The editor is a value. Keys, mouse events, pasted text, what language servers
say and what files hold go in through methods; what the editor wants of the
outside (write this file, start that server) is left in `Editor::effects`, and
the answers come back through further methods. So nothing in `src/` reads a
file or a clock.

## Layout

- `text`, `position`, `strings`, `json`, `paths`, `search` — text, and the
  outside crates that hold, cut and search it (`ropey`, `unicode-segmentation`,
  `unicode-width`, `regex`, `serde_json`), each behind a small trusted item.
- `transaction`, `document`, `motions`, `edits`, `selections`, `objects`,
  `surround`, `strip`, `substitute` — one buffer: edits and their inverses,
  undo, cursors, selections, text objects.
- `layout`, `desk`, `windows`, `view`, `screen`, `mouse` — windows and what
  they show.
- `commands`, `keymap`, `keymaps`, `dispatch`, `keys`, `input`, `waits`,
  `moves`, `acts`, `run`, `repeat`, `replays` — keys, commands, macros.
- `prompts`, `ex`, `suggest`, `picker`, `picker_keys`, `palette`, `help`,
  `completion`, `typing`, `tree_keys`, `tree_files`, `filetree`, `shell` — what
  opens over the text and beside it.
- `lsp`, `lsp_parse`, `requests`, `serve`, `sync`, `servers`, `events`,
  `answers`, `problems`, `workspace` — language servers.
- `config`, `deps`, `crates`, `upgrade`, `tools`, `files`, `autosave`, `marks`,
  `upkeep`, `birth`, `state`, `editor` — options, manifests, installers, files,
  change markers, and the editor as a whole.
- `laws`, `steps`, `playback` and the functions named `law_..` elsewhere state
  what holds of several functions together: an edit undoes as one step, at
  however many cursors, a playback ends, motions change no text, keys for the
  shell touch no buffer, and the like.
