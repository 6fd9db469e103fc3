# psyche

Verified coordination logic for decentralised training runs, written in Verus.

## Layout

- `src/` — the verified library.
  - `hashing`, `text`: SHA-256 (through the `sha2` crate) and decimal rendering.
  - `shuffle`: the swap-or-not index shuffle, proved to be a permutation; the
    seeded shuffle of trainer lists (through `rand`/`rand_chacha`).
  - `bloom`: the fixed-size bloom filters that witnesses fill.
  - `committee_selection`: tie breakers, verifiers, trainers and witnesses of a
    round, with exact committee sizes.
  - `coordinator`, `witnessing`, `consensus`, `data_selection`, `model`: the
    coordinator's epoch and round state machine, witness reports, health checks,
    the consensus vote on commitments, and the assignment of a round's data.
  - `client_round`, `client_steps`, `client_training`, `client_loop`,
    `client_config`: a training client's bookkeeping of gossiped results and
    payloads, its step transitions, its apply phase, download retries and settings.
  - `overlapped_client`, `overlapped_phases`: the bookkeeping of a client that
    overlaps consecutive rounds (three witness blooms, results routed by step) and
    how it enters each phase of a run.
  - `simple_coordinator`, `e2e`, `local_data`, `download_progress`: a minimal
    coordinator, the commands of the end-to-end test network, the index of local
    training data, and download progress reports.
- `tests/` — tests of the library on concrete values.
- `app/` — what runs around it: processes, files, the environment, and the
  floating-point statistics.
