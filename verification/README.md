# aiwm_core

The decision logic of an AI workstation manager's core, written in Verus
and proved against its contracts: configuration and its environment
overrides, the lifecycle states of downloads, jobs, agent sessions and
training runs, VRAM fit estimates, download origins and host tokens, the
download manager's decisions (enqueue gates, resume, retries, the end of a
stream, the SHA-256 check of a finished file), the storage report, output retention, and the
cleanup scan and apply (every group, what is offered and what is
protected, and why).

Layout:

- `src/` — the verified library. Each public function states in `ensures`
  what it returns; the `law_*` proof functions state what holds across
  calls (round trips of stored names, what the retention rule keeps, that
  the newest log, the final checkpoint, a busy dataset, an unfinished run or
  an active download's staging folder is never offered, ...).
- `tests/` — the library's tests on concrete values.
- `app/` — the edges around the library: the config file on disk, folder
  walks, free space, reading a downloaded file in chunks for the library
  to hash, deleting what a sweep chose. It reads and writes, and asks the
  library at each decision: what a walked entry counts for, what the sweep
  deletes, whether a file passes its checks.

Calls into outside crates (`time`, `serde_json`, `sha2`) and into `std` functions
the verifier has no model of sit behind small trusted wrappers whose doc
comments say what their contracts claim.
