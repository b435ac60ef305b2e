# hayate_fileview

A three-pane file viewer for Linux (sidebar, file list, preview, tabs and a
terminal pane), whose logic is a library verified with Verus.

- `src/` — the verified library: directory listings and their order, the
  view state (selection, search filter, history), key and menu commands,
  tabs, the sidebar model, breadcrumbs, the preview's decisions and texts,
  the status line, the settings file format, `text/uri-list` parsing and
  writing, the terminal grid, an LRU cache, and the file-operation
  decisions (destination names, trash records, batches).
- `tests/` — tests of the library on concrete values.
- `app/` — the program around it: the window and its widgets, reading
  directories, file operations, the pseudo-terminal, the directory watcher,
  the settings file on disk, and the pixel layout of the panes.
