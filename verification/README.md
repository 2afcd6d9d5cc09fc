# cs310_shared

The shared core of a node-based video editor: a project is a graph of nodes
(media imports, effects, outputs) joined by links, rendered into composited
clips, with a client and a server that keep copies of it in step.

The library in `src/` is written in Verus. Its functions carry contracts that
Verus proves, except the few that call an outside crate (`uuid` in `global`,
`petgraph` and `bimap` in `graph`), whose contracts state what the called code
does and are trusted; `uniq_id` draws a random UUID and promises only its
version and variant bits.

- `store`, `node`, `clip`, `pipeline`: the project, its nodes, clips and links;
  building the project's graph and working out what flows along it.
- `nodes/`: the input and output types of each kind of node.
- `task`: edits to a project and the network work each one leaves.
- `cache`: which rendered outputs a change invalidates.
- `abstract_pipeline`: the rewrite of a rendering pipeline into GStreamer's
  text form (splits, aliases, dead ends).
- `server`, `client`: what each side does with a request or an answer.
- `networking`, `preview`, `status`: the wire codes and the preview
  bookkeeping.
- `graph`: the contracts of the `petgraph` and `bimap` calls the library makes.

`app/` holds the unverified edges: JSON, files, sockets, the server's
connection handler and the client's network thread. `tests/` exercises the
library on concrete values.
