# Stellar Mixer TreePIR server

A server for Merkle paths of the Stellar mixer contract's tree. It follows the
contract's events, rebuilds the tree from them off-chain, and answers private
queries for paths: the client never tells which leaf it asks for.

The logic is a library in Verus, under `src/`; what it does is stated in
`requires` and `ensures` clauses and proved. The program around it, with HTTP,
Stellar RPC and RocksDB, is under `app/`.

## Reading events

- `json`, `json_events`, `rpc_events`: events as `getEvents` reports them, in the
  JSON form of XDR.
- `scval`, `ledger_meta`, `scval_events`, `ledger_events`: events as they stand in
  the metadata of ledgers.
- `events`: the three kinds of tree events and what can be wrong with one.
  `event_laws` proves that what the contract emits is read as it was emitted.
- `fetch`, `order`: fetching the events of a range of ledgers page by page, and the
  order in which they are applied. `chain_laws` proves that the events read from
  ledgers come out as on the chain and rebuild the tree.
- `indexer`: which ledgers are read next, and what follows a failure.

## Applying events

- `apply`: an event is applied only where its leaves follow those of the tree and
  the tree with them has the event's root. `apply_laws` proves what that comes to.
- `state_store`: which leaves were indexed, in a key-value database. `state_laws`
  proves that the database gives back the leaves that were written, once each and
  in order.

## Answering requests

- `layout`, `path_query`, `registration`, `wire`: which requests are taken, and what
  is sent.
- `api_error`: how refused requests are answered.

## Below

- `config`: settings from environment variables.
- `encoding`, `text`: hexadecimal, base64, and plain text. `hash_laws` proves that
  each form of a hash is read as that hash.
