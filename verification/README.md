# rexedit

A terminal hex editor whose behaviour is proved with Verus.

- `src/` is the library: the state of an open file (`app`), the workspace of all files
  (`workspace`), and what they are made of (search, rows, selections, edits, the Python console,
  dialogs). Every operation is stated as a function on a model of the state (`DocView`,
  `WorkspaceView`); laws over these functions are public proof functions.
- What has to be done outside the library (files, threads, the clipboard, the interpreter) it asks
  for with `Effect` and `Task` values; the outcome is handed back by a `finish_*`, `offer_*` or
  `drain_*` call.
- `app/` is the program around it: the terminal, files, processes and threads.
- `tests/` runs the library.
