# gte_services

Two services of the gte editor, verified with Verus.

- Release checks: which of two versions is newer (`version`), how the editor was installed and
  how to update it (`install`), when a check is due (`stamp`), and the course of a check from the
  stamp to its result (`checker`).
- Clipboard images over SSH: the command line (`args`), the image that the clipboard holds or
  names (`image`, `percent`, `path`, `clock`), the commands for the remote machine (`remote`), and
  the course of an upload (`upload`).

`text` and `number` hold what both rest on. The library does no input or output: it says what to
do next, and is told what came of it. `app/` carries this out: the program `zapet-ssh-image`, and
the release checker with its thread. Paths are in UTF-8: POSIX paths by the library's own rules,
others by what the machine says of them.
