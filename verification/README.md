# trash_rs

A trash can for the command line. `trash-rs delete FILE...` moves files into a
trash directory and records where each came from and when; `list` shows what
the trash holds; `empty` and `clean` manage it.

The library under `src/` holds the logic, verified with Verus:

- `path`: paths as the bytes the system gives for them, with `/` separators —
  pushing components, finding a path's file name, and splitting and replacing
  its stem and extension; a path that is not valid UTF-8 is kept as it is;
- `command`: which function a command line asks for, its flags and operands,
  and the action taken in answer;
- `config`: the configuration, the layout of the trash directories, and the
  steps of fetching or creating the configuration;
- `delete`: where a trashed file goes (and the numbered copies tried when that
  place is taken), where its metadata goes, and the date recorded;
- `list`, `empty`, `trash`: the listing, the `empty` command, and the records
  kept on trashed files;
- `text`: decimal rendering, padding, reading bytes as UTF-8 text and small
  string helpers.

`app/main.rs` is the program: it reads the command line, the configuration
file and the file system, asks the library what to do, and does it.
