# launchx

A launcher that groups URLs, files and folders into projects and opens a
project's resources together.

- `src/` is the verified library: the data model (`model`), text handling
  (`text`), project colors (`color`), the launcher's decisions (`launcher`),
  the editor's rules (`editor`) and the application state with every action
  the user can take on it (`app`).
- `app/` is the desktop program around it: the egui window, reading and
  writing `config.json`, the file-system checks, and handing targets to the
  system to open.
- `tests/` exercises the library.
