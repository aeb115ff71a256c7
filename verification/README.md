# axiom_core

The runtime core of an agent kernel, written in Verus: executable Rust whose
behaviour is stated in `requires` / `ensures` contracts and proved.

A run specification lists steps. The kernel asks a scheduler for the next
step, asks a shell whether the step may run (allow, rewrite or deny), runs it
through a capability transport under the run's capability leases, records
every transition as a numbered event, and checkpoints the run's state after
each step. Child runs are validated against their parent and run under the
same kernel. Around the kernel sit the event journal (integrity scans, repair,
compaction), writer leases with epoch fencing, snapshots, and schema
migration of legacy records.

## Layout

- `src/` — the verified library. Each module states a mathematical model of
  its data (views and spec functions over `Seq`, `Map`, `Set`) and proves its
  functions against it. Properties that relate several calls are public proof
  functions (`lemma_*`), for example the lease protocol's fencing, and that a
  journal holding exactly the events a run returned scans clean and reads
  them back in order.
- `tests/` — ordinary Rust tests of the library on concrete values.
- `app/` — the `axiom` command line and everything that touches the outside
  world: JSON encoding of the records (serde), the journal, checkpoint, lease
  and snapshot files (with `fs2` locks), and the command line and filesystem
  capability drivers. It hands the library plain values and takes its
  decisions back.

The library calls two outside functions through trusted wrappers whose
contracts are believed, not proved: `sha2::Sha256::digest` (for
specification digests) and `std::path::Path::starts_with` (for child
workspaces), and `serde_json`'s reading of a version field from a JSON
record (for schema migration), besides `String::push` and the system clock.
