# orgwiki

Publishes an org-roam note collection as a static HTML wiki: one page per
note, one page per tag, a page listing all notes and a page listing all tags,
republished whenever a note changes.

- `src/` is the verified library (Verus): reading the tag rows into the
  notes, grouping and ordering notes, the links between notes, the decisions
  of the HTML page writer, the page templates, and the watcher's decision.
  Its contracts are stated over character sequences and views of the notes.
- `app/` is the program around it: the SQLite database, the file system, the
  file watcher, template rendering with serde contexts, and orgize's HTML
  writer callbacks.
- `tests/` runs the library on concrete notes.
