# sid

Interactive sed with a live diff preview: type a sed expression, see what it would do to the
files, and apply it in place.

`src/` is the library. Every function in it is verified with Verus against its contract:

- `app`, `app_laws`: the state of the program, and what keys, pastes, reports and time do to it
- `worker`, `worker_laws`: the worker that runs sed, as steps from an answer to the next action
- `diff_view`: the diff between a file and what sed makes of it
- `files`, `path`: discovery of files, and their order
- `preview`: file contents, capped for the preview
- `sed`: the arguments of sed, and what its outcomes mean
- `escape`: pasted text, escaped for an expression
- `ui`, `styled`: what the screen shows, as plain widgets
- `cursor`, `text`: places in texts, lines, trimming, numbers
- `cli`: the arguments of the program

`app/` is the program around it: it reads the command line and the disk, runs sed, and drives
the terminal. `tests/` runs the library on examples.

A few calls go to code that is not verified: the diff algorithm of `similar`, the layout of
`ratatui`, and the UTF-8 decoding of the standard library. Each stands behind a function whose
doc comment says what is relied on.
