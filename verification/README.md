# klartext

Vehicle diagnostics over HSFZ and UDS, with its decisions verified by Verus.

- `src/order.rs`: what a stable arrangement of a sequence is.
- `src/hsfz`: the framing of the transport and the answers to a discovery probe.
- `src/uds.rs`: the requests and responses of the diagnostic services.
- `src/sgbd`: the container of an ECU's description file and its tables.
- `src/semantic`: what codes, identifiers, snapshots, measurements, service functions and identity
  blocks mean.
- `src/service`: how a service function is run: its phases, its preconditions and its cycle.
- `src/client`: the request table of a session, and the procedures that are run over it: reads,
  identification, scans, clears and resets.

Each module states what its functions return over spec functions, and what holds of the whole as
`law_*` proof functions. The procedures are state machines: they say what to send or wait for
next, take what came back, and are verified for every reply.

`app/` is the ordinary Rust around them: sockets, timers, files and the database. What the library
takes on trust is marked `external_body` or `assume_specification`, each with a comment that names
the function behind it.
