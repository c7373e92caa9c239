# agent-bus

A message bus for agents. Inside one process agents register with a `Bus` and
exchange messages by name. Across processes they connect to a broker over a Unix
socket, send to a name, a topic or everybody, and are told who comes and goes.

- `src/` is the library, verified with Verus. It decides and computes: routing,
  registration, subscriptions, the course of a connection, framing. Contracts are
  stated over the views of each type; the functions called `law_..` state what holds
  of the library as a whole.
- `app/` is the daemon and the asynchronous ends: sockets, tasks, locks, JSON,
  logging, the command line.
- `tests/` run the library from outside.

| module | what it holds |
| --- | --- |
| `message` | messages, targets and frames |
| `channel` | the queue behind a mailbox, over a tokio unbounded channel |
| `bus` | the in-process bus and its mailboxes |
| `table` | values under distinct names |
| `broker` | who is connected and subscribed, and what each event gives rise to |
| `session` | one connection to the broker, from its first frame to its end |
| `client` | the client's end of a connection |
| `network` | a broker and its connections taken together (proofs only) |
| `wire` | the framing of JSON texts |

What is taken on trust is what the items marked `external_body` and
`assume_specification` say of tokio, serde_json, uuid and std; each names the function
that it speaks of.
