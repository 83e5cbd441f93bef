# Hawk

Hawk runs a shell in a pane of the terminal and lists the shell's working directory above it.

- `src/` is the library. It decides what Hawk shows and does, and its contracts, which Verus proves,
  say what that is. It performs no input or output of its own.
- `app/` is the program around it: the terminal, the pseudoterminal of the shell, the file system
  and the clock. It also gives the terminal emulator the output that the library leaves over, which
  comes while a restored cursor stands outside of a screen that has become smaller, or while the
  screen holds half of a character that was cut in two. The emulator may panic there, and nothing
  is proved of what it then shows.
- `tests/` runs the library on concrete values.

Keys: Ctrl+E quits, F5 refreshes the listing, Ctrl+H shows or leaves out hidden names. Everything
else goes to the shell, and while a full-screen program runs so do F5 and Ctrl+H. Ctrl+C always
goes to the shell.

The library relies on `vt100` for the screen of the shell and on `ratatui` for the division of the
screen. The functions that call them, in `src/terminal.rs` and `src/layout.rs`, carry contracts that
are taken on trust, as do those in `src/text.rs` that call the standard library.
