# git-trek

A terminal viewer for a git repository's history. Each file is drawn as a
tile sized by its line count at the shown commit and colored by how it changed
since the commit before; the arrow keys (or A and D) and the mouse wheel move through the
commits, and a selected file can be written back from the shown commit.

## Layout

- `src/` is the verified library (Verus):
  - `data.rs`: commits, per-file snapshots, health of a change, the file table.
  - `app.rs`, `input.rs`: the interface state and how keys and mouse events
    change it.
  - `mouse.rs`, `views.rs`, `panels.rs`, `seismic.rs`, `palette.rs`: hit
    testing, view tabs, and what the terrain, timeline, status and seismic
    panels show.
  - `text.rs`, `sorting.rs`: text shortening and the stable orderings used.
  - `laws.rs`: properties that relate several operations.
- `app/` is the program around it: command line, terminal, git access and
  drawing with ratatui.
- `tests/` exercises the library on concrete values.
