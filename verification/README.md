# Porpoise

The core of a PDF viewer and page editor, verified with Verus, and the window around it.

`src/` is the library. Every function in it is proved to do what its contract says:

- `order`, `order_laws`, `document`: which pages are shown, in which order, from which files, with
  undo.
- `inherit`, `save`, `save_laws`, `atomic`: writing the pages out with what they inherit resolved,
  and replacing a file whole or not at all. `pdf` is the boundary to the `lopdf` crate; `renumber`
  and `prune` say what numbering a document anew and dropping unused objects keep of its pages.
- `command`, `protocol`, `protocol_laws`, `json`, `control`, `reply`, `snapshot`: driving the
  program from another process, one JSON object per line.
- `confirm`, `session`, `session_laws`: what each command does, and that unsaved changes are not
  lost without an answer.
- `grid`, `selection`, `search`, `gesture`, `input`, `edits`, `navigation`, `chrome`: what clicks,
  keys, drags and drops mean, and what the window offers.
- `queue`, `failure`, `tiles`, `retain`: which pages are worth drawing, and when to give up.
- `picker`, `saver`, `mail`: waiting for a dialog and for a save on other threads.
- `devtools`, `report`: measuring, capturing and describing.
- `view`, `stage`, `label`, `button`, `text`: the small vocabulary of the rest.

Public proof functions named `law_…` state what holds across several functions.

`app/` is the program: argument handling, files, threads, the window, and everything measured in
floating point. `tests/` runs the library on concrete values.
