# locdo

A terminal todo app that is a thin wrapper around a markdown file: the file is the only
state, every change is written at once, and what other programs write is picked up.

The library under `src/` holds all that the app decides, verified with
[Verus](https://github.com/verus-lang/verus). It does no input or output: it takes texts,
keys and the outcomes of commands, and gives back texts, what is shown, and what to do next.

| module | what it is about |
| --- | --- |
| `text`, `bytes`, `lines`, `search` | strings, byte positions, lists of lines, searching |
| `task` | one line: headings, check boxes, completion stamps |
| `outline`, `blocks` | tasks with the blocks under them, sections, blank lines |
| `clock` | the local time, and the formats of times |
| `app` | the state, what is selected, undo, the file's text |
| `toggle`, `moves`, `prompt`, `notes`, `rotate` | what can be done with tasks and sections |
| `rows`, `screen` | what is shown |
| `keys` | what each key does |
| `sync` | which git commands a sync runs, and what it makes of them |
| `laws` | what holds of all of it together |

Every operation has a spec function from state to state (`State` in `app`), and the code is
proved to do what it says. The modules under `laws` prove what follows for the whole: that
what is written is read back, that undo takes changes back, that lines that are no tasks
survive, that a completed task is on top of Done and comes back when it is opened again, that
nothing is lost when done tasks roll over into the history, and each stands there under its
month.

Trusted, not proved, are the calls into `chrono` in `clock`, each behind a function whose
contract says what is claimed of it, and `String::push` in `text`.

`app/` is the program around the library: arguments, files, the terminal, git. `tests/` runs
the library on examples.
