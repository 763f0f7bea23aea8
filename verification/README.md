# linera

The verified core of a Linera validator, written in Verus.

`src/` holds the library; every function in it carries a contract that Verus checks:

- `amount`: amounts and balances, with checked arithmetic, conversions and decimal parsing;
- `base`, `execution`: identifiers, chain descriptions, ownership, committees, and the
  contexts in which operations, effects and queries execute;
- `committees`, `subscriptions`: the committees of a chain by epoch, and the channels it
  subscribes to, ordered by their storage keys;
- `system`: the system application's state machine — transfers, opening and closing
  chains, committees and subscriptions — with its laws (money is conserved by transfers,
  failed operations change nothing, the epoch never goes back, …);
- `module_cache`: the cache of compiled WebAssembly modules, limited by the total size of
  the cached bytecodes, which evicts the least recently used modules first (then the least
  used, then those of the largest bytecodes);
- `value_cache`: the least-recently-used cache of certificate values, on top of the `lru`
  crate;
- `response_slot`: the state of a single-response channel;
- `promises`: the numbered promises a WebAssembly guest holds on its host;
- `wit_conversions`, `wasm`: the values a WebAssembly guest hands to its host, and the fuel
  cost of instructions;
- `worker`: the decisions a worker takes on certificates, proposals, queries and
  cross-chain requests, and the notifiers waiting for message delivery;
- `outboxes`: the heights waiting in the outboxes of a chain, grouped by recipient and medium;
- `http`: the HTTP request and response types.

Laws that relate several functions are public proof functions whose names start with
`law_`.

`app/` holds what Verus does not check: the blocking response channels built on a mutex
and a condition variable, the named asynchronous mutex that traces its locking and waking, and the decimal display of
amounts. `tests/` exercises the library on concrete values.
