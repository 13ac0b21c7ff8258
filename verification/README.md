# Tessera

The rules of a small tiling Wayland compositor that is driven from the keyboard, written in Rust
and verified with Verus.

- `src/layout` holds the split tree of a workspace and the rectangles that it produces. Tiles never
  overlap and fill their area; see `src/layout/laws.rs`.
- `src/config` holds settings: the schema, values that keep the comments of their file, expressions,
  key bindings, and the headers of scripts.
- `src/cells` holds a character grid and the painter that turns it into pixels.
- `src/ipc.rs` holds the messages of the control socket.
- `src/scripts` holds the scripts of a session: how they are found, run and listened to.
- `src/session` holds the rest of a session: windows and workspaces, placement, screens, keys,
  requests, and what is started how.

`app/` is the program around these rules: the display server, the GPU, the input devices, files
and processes. `tests/` runs the library.

The TOML documents are those of `toml_edit`. What the library takes on trust of that crate is
written down in `src/config/document.rs`.
