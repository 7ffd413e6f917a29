# denote

Exports Bear notes as markdown files into a git repository and keeps the
repository in sync with Bear's database.

- `src/` is the library, verified with Verus: configuration and its
  environment overrides, the note model and the rows it is read from, markdown
  rendering (frontmatter, title heading, attachment handling), the manifest of
  exported filenames, change detection, the file operations of a sync, and the
  decisions of a sync cycle. `src/export/convergence.rs` proves that applying
  the changes of a diff leaves nothing more to change.
- `app/` is the program around it: the command line, SQLite access, the file
  system, git and the file watcher.
- `tests/` exercises the library on concrete values.
