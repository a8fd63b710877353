# save_manager

Keeps the save files of desktop applications in Dropbox. Three programs make
it up: an authorization server that turns a Dropbox sign-in code into a token,
a desktop client in which the user lists the applications and their save
files, and a daemon that uploads an application's save file when the
application closes.

- `src/` is the verified library (Verus): the decisions of the three programs,
  with their contracts and laws.
  - `text`, `path`: character-level replacement and the final component of a Windows
    path (`/` and `\` as separators; drive, share, device and verbatim
    prefixes skipped), specified over `Seq<char>`.
  - `auth_server`: the server's answers.
  - `client`: configuration file names, the sign-in outcome, the application
    list and its settings form.
  - `daemon`: the registry of applications (a `DashMap`), the process watch
    that finds closed applications, and the Dropbox paths of uploads.
- `app/` holds the programs around it: HTTP, GTK, files, Dropbox calls, the
  file watcher and the process list. `app/main.rs` runs one of them, picked by
  the first argument (`auth-server`, `client`, or the daemon).
- `tests/` runs the library on concrete values.
