# network

The application layer of a blockchain node's networking, verified with Verus:
per-peer metadata and its storage per network, peer management and health checking,
routing of messages across networks, discovery of peers from on-chain identities, the
model of nodes and connections used by network tests, and the client commands of the
script smoke tests.

- `src/` is the verified library. Each module states its behaviour in `requires` /
  `ensures` contracts over mathematical views (`Map`, `Seq`, `Set`), and the laws that
  relate several operations are public proof functions (their names start with `law_`).
- `tests/` runs the library on concrete values.
- `app/` holds what waits on channels or the network, touches files, or needs serde's
  derives: the discovery stream, the asynchronous disconnection and remote calls, the
  test channels, and the script helpers that drive a client.
