# fastfiles

The core of a LAN file-sharing server, verified with Verus.

- `src/` — the library: the table of shared files and their four-character
  codes (`file_manager`), the `Range` header of resumable downloads (`range`),
  how a download is answered (`download`), the HTML pages (`pages`, `site`,
  `icon`, `size_format`, `url`), the window's commands (`commands`) and socket
  tuning (`tuning`), with the character-level helpers in `text` and `number`.
- `app/` — the I/O around it: the HTTP server (actix-web, tokio), streaming of
  file contents (memmap2), the listening socket (socket2), LAN address
  detection (if-addrs) and the platform calls (libc).
- `tests/` — tests of the library on concrete values.

The desktop shell (the tauri window, its file dialog and the registration of
the commands) is not part of this crate: `app/commands.rs` offers the
commands as plain functions over `AppState`, and `share_file` takes the path
that the file dialog chose.
