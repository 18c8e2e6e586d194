# cloudflow

The verified core of a pluggable virtual filesystem for memory introspection. Plugins
provide directory trees; backends mount them under names; a node routes paths and
handles to its backends; a small wire protocol carries reads between a client and a
server.

Modules of the library (`src/`):

- `error`: error origins and kinds, their texts, and the integer encoding errors
  travel in.
- `text`, `path`: string helpers, path splitting and plugin argument strings.
- `fs`, `handles`, `backend`, `node`, `plugins`: the filesystem model, the handle
  table, local backends with their `new` and `rm` control files, the node that routes
  between backends, and the store of plugin mappings.
- `protocol`, `buffers`, `session`, `io`: frames of the read protocol, the buffers
  and destinations used on either side, the server's and client's decisions, and reads
  from in-memory files and cursors.
- `procfs`, `memmaps`: process directories and lookup caches, maps files and module
  memory windows.
- `client`, `cli`, `daemon`, `remote`, `pool`: the benchmark, command line decisions,
  the daemon's connection registry and answers, the daemon connector's requests, and
  per-user value pools.

`app/` holds the node's command line program and a TCP frontend server that reads
through a node (`session::serve_read`) and sends the frames the library builds.
