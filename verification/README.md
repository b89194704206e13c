# cmux_sidebar_ports

A sidebar plugin for the cmux terminal multiplexer that lists the TCP ports
listening on the machine, with their process names and PIDs. Enter opens
`http://localhost:<port>` in a browser tab of the focused cmux pane, `k`
asks to send SIGTERM to the owning process, `r` rescans, Ctrl-C quits.

The library under `src/` is written in Verus and proved against its
contracts:

- `text` — characters, whitespace, words and lines as `str::split_whitespace`
  and `str::lines` produce them, unsigned decimal parsing and printing,
  trimming, and the code-point order of strings.
- `ports` — parsing `lsof -nP -iTCP -sTCP:LISTEN` output into rows, their
  order, new-port marking and the messages about running lsof.
- `ui` and `screen` — truncation to the sidebar's width, scrolling, and the
  text and style of every line.
- `layout` — the bands of the sidebar (cut by ratatui) and where each line
  is drawn.
- `panes` — the focused pane of cmux's workspace tree and the browser tab to
  open.
- `sidebar` — the state of the event loop and its decisions on key presses,
  scans, kills, browser tabs and reconnection with backoff.

`app/main.rs` runs the terminal, the clock, lsof, kill and the cmux socket,
and hands each result to the library.
