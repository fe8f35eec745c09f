# shoji_probe

Two debug helpers for a Wayland compositor.

- The toplevel monitor follows wlr-foreign-toplevel-management events, prints
  each of them, and flags every toplevel that once entered an output and ends
  a batch of events on none. It can also minimize a window or bring it back,
  the way a taskbar click would.
- The session lock tester locks the session for a few seconds and unlocks it
  again, with one blank lock surface per output.

`src/` holds what the helpers decide, verified with Verus: how events change
what is known (`monitor`, `toplevel`, `lock`), what follows from a whole
history of events (`history`), which requests are sent (`requests`), the
course of each program (`monitor_run`, `lock_run`), the command lines
(`options`) and the text of every line (`text`). `app/` owns the Wayland
connection, the clock and the terminal.
