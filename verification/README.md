# ftp-utils

Two command-line tools around FTP/FTPS directory trees, with their logic
verified by Verus:

- `ftpdiff` compares a remote directory tree with a local copy (by size,
  and with `--hash` by MD5), prints one line per file and a summary, and
  can write a CSV report. Either side can be read from an earlier report
  (`--local-csv` / `--remote-csv`), and `--build` scans one side into a
  report without comparing.
- `ftpops` reads such a report and copies or deletes the files of one
  status, locally or on the server.

## Layout

- `src/` is the verified library: configuration merging and run
  planning, the comparison, the hash pass, the remote walk over an
  abstract `FtpConnection`, CSV reading and writing (through the `csv`
  crate), exclusion (through `glob`), MD5 (through `md5`), colored output
  (through `colored`), the parsing of server `LIST` lines (through
  `suppaftp`'s parser), the copy/delete operations over `FtpConnection`
  and `LocalFiles`, and the laws that tie them together (`src/laws.rs`).
  The connection and local-file traits are driven through `Logged`
  (`src/logged.rs`), which records each call and its answer as a ghost
  sequence, so the contracts say which calls were made and how their
  answers decided the result.
- `app/` is the program: argument parsing with `clap`, JSON config files
  with `serde_json`, the password prompt, the `suppaftp` connection, the
  local directory walk with `walkdir`, and the file reads and writes.
- `tests/` runs the library on concrete values.
