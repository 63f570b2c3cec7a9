# exfer

The decisions of an Exfer node, verified with Verus: which blocks it takes and
what follows from them, how it changes from one chain to a better one and back
when that fails, which peers it keeps, believes and downloads from, how much it
lets each of them ask for, and what its JSON-RPC and event-stream endpoints
answer.

## Layout

- `src/` is the library. Every item is verified. Time is passed in as a count of
  nanoseconds, and whatever storage, consensus or the wire has to say is passed
  in as a value; where a decision needs several such values in turn, it is a
  small machine that says what it needs next and is told what came of it.
  - Chains and blocks: `chain`, `work`, `utxo`, `pipeline`, `intake`, `orphans`,
    `future`, `triggers`, `forks`, `errors`.
  - Peers: `net`, `registry`, `eviction`, `admission`, `bans`, `limits`,
    `reader`, `supervisor`, `addrbook`, `dialer`, `routing`, `identity`.
  - Synchronisation: `events`, `ancestor`, `stages`, `ibd`, `pacing`, `tips`,
    `tip_validation`, `tipcheck`, `subscribers`, `schedule`.
  - Endpoints: `http`, `json`, `rpc`, `flows`, `sse`.
  - Tools: `assoc`, `clock`, `hash`, `hexcodec`, `lex`, `text`.
- `tests/` runs the library on concrete values.
- `app/` is ordinary Rust around the library: sockets, tasks and locks, and the
  traits behind which storage, consensus, the mempool and the wire stand.

Public proof functions whose names begin with `law_` state what holds of several
functions together.
