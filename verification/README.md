# nekocode

The verified core of a coding agent: the turn loop's bookkeeping, the
decoders of the OpenAI- and Anthropic-compatible chat streams, the
Server-Sent Events line decoder, the request builders, the file, shell,
skill and subagent tools' decisions, and the subagent registry's state
machine. Every public function in `src/` carries a Verus contract, all of
`src/` is proved, and the laws that span several calls stand as public
proof functions named `law_*`.

Layout:

- `src/` — the library, verified by Verus.
- `tests/` — its tests, plain Rust.
- `app/` — the runtime around it: HTTP, processes, files, tasks, timers,
  and the serde forms of the library's types. Verus does not see it.

Data layout: the subagent registry keeps its runs in a vector of
`(id, snapshot)` pairs in increasing id order, and the profile catalog and
the loaded skills are vectors in which the last entry of a name is the one
found. Ordered vectors give the sorted id lists the tools report directly,
and they let the registry's operations be specified over a single view (a
map from id to snapshot) that its type invariant keeps in step with the
vector; name lookups over `String` keys are proved over the vectors' views.
