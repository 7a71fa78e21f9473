# rmux

Persistent terminal sessions. A daemon, `rmuxd`, runs shells in
pseudoterminals; clients attach to a session, see its screen, send input, and
detach or lose their connection without ending what runs in it.

The rules of the system are a library, written and proved in Verus: what a
session retains of its output, who may write into it and resize it, which
bytes an attachment is sent, how a client resumes after a broken connection,
how terminals are arranged in a view, what a shell's report says, and what is
kept of a session after its end.

## Layout

- `src/`: the library. It does no input or output; time, bytes and file facts
  are arguments. What it takes from elsewhere by itself are the identifiers it
  draws and the clock behind the archives, each beside a function that is given
  the value instead.
  - `proto`, `codec`, `layout`: the messages, their frames, and the layout of
    a view.
  - `journal`, `lease`: the retained output and the exclusive rights to it.
  - `terminal`, `emulator`, `history`, `screen`, `utf8`, `paths`: the screen
    of a session and what the daemon knows of the shell in it.
  - `session`, `delivery`, `attachment`, `requests`, `server`: the daemon's
    side of sessions, attachments and connections.
  - `manager`, `names`, `topology`, `child`: the sessions of a daemon, their
    names and their views.
  - `report`, `reporter`, `shell`, `conpty`: what shells report, and what
    startup output belongs to the daemon.
  - `client`, `controller`, `presenter`, `commands`: a client's side.
  - `ipc`, `restart`, `dto`, `menu`: local endpoints, the cooperative restart,
    and the values of the graphical client.
  - `client_archive`, `daemon_archive`: what is kept after a session's end.
  - `text`, `textmap`, `order`, `ids`, `base64`: texts and numbers, maps by
    text, listing orders, identifiers.
- `tests/`: the library at work on concrete values.
- `app/`: the programs around it: arguments, sockets, pseudoterminals, files,
  threads, and the JSON form of the messages.

A contract says what a function returns on every input that it accepts.
Public proof functions state what holds of several functions together, such as
that replayed output completes the stream that a client has seen, or that a
lease never changes hands by itself.

Functions marked `external_body` call other crates; their contracts are taken
on trust, and their doc comments name the function they call.
