# khaslana

The core of a desktop Git client, written in Verus: its rules are executable functions whose
contracts are proved.

## Layout

- `src/types/` — branches, changes, commits, differences, conflicts and their models.
- `src/git/` — what Git operations decide: names, listings, history, differences, conflicts.
- `src/graph.rs` — the lanes of the commit graph.
- `src/workflow/` — workflows: reading, checking, resolving, previewing and running them step by
  step.
- `src/credentials.rs`, `src/credential_forms.rs`, `src/credential_provider.rs` — credentials, the
  remotes that they are bound to, and the dialogue in which a remote gets one.
- `src/session/` — tabs, loads, selections, menus and dialogs: state, events and effects.
- `src/ui/` — what the window shows: texts, colours, and what each click does.
- `src/text_input.rs`, `src/text.rs`, `src/strings.rs` — text fields and text.
- `src/order.rs`, `src/strset.rs`, `src/textmap.rs` — sorted lists, sets and maps of texts.
- `tests/` — tests of the library, some of them on repositories on disk.
- `app/` — the program around the library: libgit2, files, threads and the window.

State machines take an event and give back effects; the program carries the effects out and reports
what came of them.
