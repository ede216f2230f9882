# cala_projector

A streaming projector for the balances of eventually-consistent account sets of
a double-entry ledger, verified with Verus.

Whoever posts to the ledger leaves eventually-consistent sets out. The projector
maintains them: it drains the ledger's outbox in bounded batches, folds the
entries that were created into the sets above their accounts, and commits the
folded snapshots together with its place in the stream in one database
operation. The place is advanced by a compare-and-swap, so that an instance that
crashed, was duplicated or started again cannot apply a batch twice.

## Layout

- `src/balance/`: decimal amounts, snapshots of balances, and what a snapshot
  says of the entries alone.
- `src/projector/`: collecting a batch, splitting it by journal, folding it,
  finding from which date effective balances are rebuilt, and the machine that
  takes a batch through its database operation, the cursor last.
- `src/projector/world.rs`, `laws.rs`, `progress.rs`, `hierarchy.rs`: a model of
  the ledger, and what is proved of the projector as a whole. Every batch takes
  effect exactly once, whatever instances attempt; of instances that race,
  exactly one commits; a set converges to the sum of what was posted to it,
  wherever the batches are cut; a stale cursor fences the whole batch.
- `src/ledger/`: the configuration of a ledger.
- `app/`: the job, the stream and the SQL around the library.
- `tests/`: the library at work, against a ledger in memory.

## What is taken on trust

Decimal addition (`rust_decimal`), the positions of outbox events (`obix`), the
text of a job's id (`job`, `uuid`), clocks and poller settings (`es-entity`,
`job`), and durations of the standard library. Each stands behind one small
function whose comment says what is claimed of it.
