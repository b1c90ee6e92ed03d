# agentdrop

Drop a local file onto a terminal and have a remote Agent CLI receive a path that it can open.

`agentdrop connect` starts `tssh` with its own terminal untouched, and beside it a bridge that
uploads local files on request. `agentdrop proxy` runs on the remote host around the Agent: it
recognises local paths in bracketed pastes, has the bridge upload the files, and hands the Agent
the remote paths instead.

## Layout

- `src/` is the verified core: what is decided and computed, with contracts.
  - `paste`, `paste_laws`: the bracketed paste parser, and what holds of it over whole streams
  - `proxy`: the Agent's command line, terminal input, dropped files
  - `bridge`, `path`: finding a bridge, its replies, remote paths
  - `connect`, `protocol`, `clipboard`: the session, the bridge's answers, clipboard images
  - `uploader`, `shell`, `console`: uploads into one directory per session, quoting, console modes
  - `argv`, `text`, `identifier`: command lines, text, random identifiers
  - `laws`: what holds across the modules
- `app/` is the program: terminals, sockets, files and child processes.
- `tests/` runs the core on concrete values.

Paths of the remote host are bytes. Arguments given by the user are passed on without being
looked into, so they may be anything that the operating system allows.
