# leptos_reactive

A verified model of a fine-grained reactive system, written in Verus.

- `src/runtime.rs`: the `Runtime` that holds every node (signals and memos),
  the owner new nodes are created under, the observer that tracked reads
  subscribe, the subscription graph, the handle counts of reference-counted
  signals, and the intentional-leak flag. Scopes are disposed here.
- `src/signal.rs`: `RwSignal` (read/write handle) and `Signal` (read-only
  handle), with tracked and untracked reads and writes.
- `src/signal_more.rs`: `LeakedRwSignal`, created under the leak owner, and
  `RcSignal`, which lives as long as a handle of it is held.
- `src/memo_nodedup.rs`: `MemoNodedup`, a memo that runs once per change and
  always notifies its dependents, and the text of its warnings.
- `src/laws.rs`: proved properties that span several operations.
- `app/lib.rs`: hashing of signal values, the panic on a dead memo, and the
  `futures` stream that yields a memo's current value.

The runtime is passed explicitly to every operation, and closures that would
mutate a value in place take the value and return the new one.
