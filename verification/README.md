# bones-core

The core of an issue tracker whose state is an append-only log of events.

- `src/event`: events as lines of text, their hashes, and their validation
- `src/dag`: the graph that events form through their parents
- `src/crdt`: replicated values, and the state of a work item made of them
- `src/db`: the statements of the projection database
- `src/clock`, `src/model`, `src/shard.rs`, `src/text`: what these build on

The library is verified with Verus. Every function says in its contract what it
returns, and laws that relate several functions are public proof functions. The
wrappers around other crates are marked `external_body`; their doc comments say
what is taken on trust.

`app` runs the statements, reads the files, and holds the serialized forms of the
types.
