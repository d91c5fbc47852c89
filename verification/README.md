# mbulet

A terminal multiplexer: a daemon holds shells, a client shows them in a terminal.

`src/` is the library, verified with Verus. It holds every rule of the program as functions on
plain values:

- `osc7`: finds the working directory that a shell reports in its output, and strips the report.
- `session`: what the daemon keeps of a shell, and how the shell is started.
- `daemon`: what the daemon does about what a client asks.
- `client`: what keys and the daemon's messages do to the client.
- `agreement`: what client and daemon have in common.
- `view`, `layout`: what the client draws, and where.
- `keys`: what a shell gets of a key, and the prefix key of the commands.
- `protocol`: the messages, and their frames on the wire.
- `paths`: where the daemon's files stand, and how the program is started.
- `emulator`, `text`, `list`: the terminal emulator, strings, and lists with identifiers.

`app/` is the program around it: terminal, sockets, shells and threads. `tests/` holds the
library's tests.
