# grin_terminal

The model of a terminal emulator with tabs and split panes, verified with Verus.

`src/` is the library. Every function in it carries a `requires`/`ensures` contract that
Verus proves:

- `cell`, `screen`, `terminal`: the character grid with bounded scrollback, selection,
  search, scrolling regions, the primary and alternate screens, and what each control
  sequence does to them; bracketed paste and cursor reports.
- `keys`: the bytes a key press sends to the shell, and editing a prompt line.
- `action`, `palette`: the actions, their names, default and configured key bindings, and
  the command palette's ranking, selection and scrolling.
- `layout`, `session`, `tabs`: the pane tree (split, close, swap), a tab's panes and focus,
  and the tab strip with pinned tabs and reopening of closed tabs.
- `dispatch`, `pointer`: what an action, and a left-button press, move or release, do to a
  window's tabs and selection, and what they leave to the program (shells, clipboard,
  geometry).
- `config`, `render`: theme colours and the colours and faces a cell is drawn with.
- `workspace`: the saved session, its format versions and its repair on loading.
- `pty`: how the shell reader turns reads into events.
- `text`: strings as character sequences, and the calls into `unicode-width`,
  `unicode-segmentation` and `std` that the rest relies on.

Public `proof fn lemma_*` items state properties that span several calls, such as that an
action's name parses back to it, that leaving the alternate screen restores the primary one,
or that closing a pane removes exactly that pane.

`app/` is the command-line program around the library: configuration and workspace files,
the VT parser (`vte`), the shell process (`portable-pty`) and the pixel geometry of panes.
A line `:Name` applies an action and `?query` lists palette matches. Verus does not see it.

`tests/` runs the library on concrete values.
