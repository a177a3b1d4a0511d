# gd_server

The core of a language server for GDScript, verified with Verus.

`src/` is the library. It holds no I/O: what happens on the wire and on disk comes in as plain values,
and what is to be done goes out as plain values. What a function does is stated in its contract, and
the laws that span functions are public proof functions beside them.

Two things differ from machine to machine: the fingerprint of a text, and how a path reads that holds
backslashes or begins with neither one slash nor a drive. Contracts name these results by what they
are computed from and by a machine or a system, and do not say which one that is.

- `uri`, `path`, `vfs`: URIs and paths, cache keys, open documents
- `lru_cache`, `workspace`, `xfile`: cached parses and analyses, the workspace, queries across files
- `files`, `startup`, `events`, `watcher`, `documents`: what is known of the files of a project, and
  how it follows the disk and the editor
- `native`, `stubs`: the engine's API surface and its documentation pages
- `requests`, `session`, `memory`, `caps`, `diagnostics`: the life of a session and of its requests
- `syntax`, `signature`, `signature_help`: signature help
- `text`, `text_map`, `text_order`, `numbers`: texts and numbers

What the library takes from other crates (`lru`, `ropey`, `camino`, `lsp-types`, `rustc-hash`) is
called through small wrappers, each with a doc comment that says what is believed of it.

`tests/` runs the library. `app/` is ordinary Rust around it: the wire, the file system, the watcher
and the event loop. What only the language's own crates can do is asked of a `Host`.
