# krypta

Bookkeeping for an encrypted file archive: a SQLite database records every file of the
archive (its path, a random hash under which its encrypted copy is stored, its contents hash
and size), and commands sync the database with an unlocked directory, encrypt new files into
a locked directory, check the two for consistency, and list or search what is stored.

## Layout

- `src/` is the library, verified with Verus:
  - `fs`: paths by components, the tree of stored paths (ordered listing, directory
    structure) and the files found below a source directory;
  - `database`: the models and the SQL statements built from their fields, the blob encoding
    of large integers;
  - `krypta`: the decisions behind the commands (what to sync, encrypt, prune, what a
    consistency check reports, how answers and statuses read) and the settings;
  - `vault`: the first archive layout and its sync from a source folder;
  - `tmp`, `temp_path`, `random`, `text`, `gui`: scratch directories, random draws, text
    encodings and the state of the example window.
- `app/` is the program around it: command line, SQLite queries, walking directories,
  hashing and encryption, settings on disk, the S3 endpoint and the egui window.
- `tests/` runs the library on concrete values.
