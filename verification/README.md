# inode

The decision-making core of a peer-to-peer swarm inference node, verified
with Verus. A leader advertises a session, splits the peers that join into
executors and verifiers, collects every verifier's score for every
executor's response, and picks the response with the highest average.

`src/` is the verified library:

- `common` — random identifiers and splits, the SHA-256 commitment of a
  secret, the tail of a string, the clock.
- `text`, `parse` — whitespace, trimming, word splitting; decimal counts,
  and the syntax of the scores that `f32::from_str` reads (every one of
  them is recorded, as the text the verifier sent).
- `keyed`, `mesh` — maps kept as pair sequences; the topic-to-peers mesh.
- `protocol` — the session messages and what a node does on receiving one.
- `session` — the leader's sessions: roles, scores (a repeated delivery
  counted once), the winner (the first of the best-ranked averages),
  stored in its session.
- `service` — advertising, role assignment, the pipeline's phases and its
  waiting tests.
- `node` — listening, start-up, what a received message leads to, and
  keeping the bootstrap mesh current.
- `cmds` — the command-line commands.
- `slm` — requests to the model server and the reading of its replies.

`app/` is the program around it: the p2p stack, the model server's HTTP
API, serialisation, the terminal, the timing loops, and the floating-point
work: reading scores as `f32`, averaging them, and ranking the averages for
the library's choice of the winner.

The p2p stack is the `rnet-p2p` crate, which the package registry this
crate was built against does not have; `app/` names it but cannot be built
without it.
