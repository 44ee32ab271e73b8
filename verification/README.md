# kmuxd

The logic of a terminal-multiplexer daemon, as a Verus library: sessions of tabs of panes, the
clients attached to them, and what each message of a client does. The contracts of the functions
state what these return and change, and Verus proves them.

## Layout

- `src/` is the library.
  - `ratios`, `layout`, `layout_laws`: the tiling trees of tabs and the weights of their splits.
  - `pane`, `pane_laws`, `session`, `session_laws`: panes with their clients, and sessions.
  - `app` and below: the daemon's whole state and the operations on it, among them attaching,
    closing, the graveyard of closed sessions, checkpoints, restoring, worker restarts, and peer
    daemons with the sessions they host.
  - `messages`, `dispatch` and below, `client_session`, `liveness`: the messages of a client, what
    they lead to, and the life of a connection.
  - `terminal`, `backend` and below, `ansi_emit`: the terminal grid, the emulator behind it, and a
    saved grid as escape sequences.
  - `auth`, `announce`, `capability`, `capture`, `config`, `connection`, `events`, `persist`,
    `protocol`: tokens, endpoint announcements, capabilities, the capture file, configuration,
    counters, events, saved state and shared types.
  - `text`, `list`: texts and lists.
- `tests/` runs the library.
- `app/` is the ordinary Rust around it: files, sockets, the emulator's configuration.

## How it is stated

A type `T` has a mathematical view, `t@`, of a type named `TView` or after what it models. An
operation `op` states `final(self)@ == old(self)@.op_done(..)` over the view. What must hold between
operations is a predicate `wf`, and every operation keeps it. Work that only the system can do, such
as starting a program, is handed back to the caller as a value; its result comes in through a
function of its own.

Properties that span several operations are public proof functions named `law_...`.

What is believed without proof is marked `external_body`: drawing random bytes (`auth`), mapping
text to lower case (`text`), recognizing signal numbers (`app::io`), and reading and feeding the
terminal emulator (`backend::wezterm`). What a program's output does to the emulator's screen is
not stated: the contracts say which actions the emulator is given and what is shown of its screen.
