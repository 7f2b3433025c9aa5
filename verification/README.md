# vmond

The decisions of a sandbox daemon, verified with Verus: who owns a sandbox and until
when, how it moves between nodes, how its network is fenced, where a fleet places it,
and what a restarted daemon makes of what it finds.

`src/` is the library. It does no I/O. A procedure that alternates with the outside
world is a machine: it names its next step, the caller performs the step and hands
back what came of it.

| module | what it decides |
| --- | --- |
| `mesh::runtime` | serving claims, watchdog deadlines, fences, restores, suspends, rollbacks |
| `mesh::migration`, `mesh::takeback`, `mesh::journal` | taking a sandbox over, taking it back, letting it go, deleting it, and the journal of it |
| `mesh::publish`, `mesh::materialize`, `mesh::replicas` | replicas in shared storage |
| `mesh::runs` | what holds of whole runs of these procedures |
| `mesh::leases`, `mesh::votes` | leases on volumes: acquired by votes, renewed, released |
| `mesh::members`, `mesh::topology`, `mesh::lookup` | peers, and what a node tells of itself |
| `mesh::transfer` | templates and checkpoints between peers |
| `net` | addresses, leases, filter rules and the plans that install them, slots, tunnels |
| `orch` | worker table, placement, autoscaling, routes, idempotent creates, answers |
| `pools` | warm pools and claims on them |
| `registry` | sandbox records, their lifecycle, and their metadata |
| `models` | request bodies |

The rest are tools: JSON values, texts, sorted maps, numbers in decimal.

Every public function states in its `ensures` what it returns or changes. Statements
about several functions are public proof functions named `law_*`. What is believed of
other crates stands in `outside.rs`, `sharded.rs` and at the end of `json.rs`, and in
`text.rs` for one function of the standard library.

`app/` is the daemon around the library: files, processes, sockets, clocks and
threads. `tests/` run the library with the other crates linked.
