# tangleaf

The verified core of the Tangleaf notes application, written in Verus.

`src/` holds the rules, each function with a contract that Verus proves:

- `operation` – operations, their validation, replica roles, batch steps.
- `plan` – applying one operation as a decision: from the operation and what the replica
  holds about the objects it names, the writes that apply it, in order, and the objects it
  affects; a block's Markdown converges whatever the delivery order.
- `apply` – the rules those plans are made of: last-writer-wins clocks, tombstones,
  object kinds, page identities, titles, attachments; convergence laws.
- `effects` – the projections an apply owes, refreshed at once or once per batch.
- `structure` – block placement: invalid parents dropped, cycles broken at their latest
  intent.
- `snapshot` – the consistency rules of a full sync snapshot and what importing one does.
- `sync` – server sequence numbers, cursors and workspace binding.
- `refs` – the page titles and block UUIDs a block refers to.
- `identity` – attachment identities and UUID text.
- `envelope` – the storage envelope of persisted operations.
- `settings`, `window_controls` – device settings and the desktop's window buttons.
- `model`, `text` – shared data types and text helpers.

`app/` holds the I/O around it: the transaction that reads a plan's facts and performs its
writes, the local, batch and server-sequenced apply paths, the projections (placement
reconciliation, page links, block references, the replica's clock), snapshot export,
import and projection, the SQLite worker thread, the sync bookkeeping tables, the settings
file and the desktop detection. `app::apply::Host` supplies what is not part of this
project's sources: where the workspace UUID is stored and a fresh replica's schema, the
data model's title normalizer and journal UUIDs, the Markdown reference scanner, the search
stemmer, the arithmetic of the hybrid logical clock, the published JSON of an operation,
and the handwriting store.

Owed page links and the page titles a block links to are kept as vectors held in text
order with no duplicates, rather than as `BTreeSet<String>`: vstd specifies the order of a
B-tree's iteration only for keys it knows to obey its ordering laws, which the integer keys
used elsewhere do and `String` does not.

`tests/` runs the library on concrete values.
