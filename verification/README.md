# paseo-downsizer

Planning and decision logic for the staged downsizing and sunset of the Paseo
relay chain: shrink the validator set and the core count one step per era,
pack every active parachain onto the remaining cores, hold at the floor, then
announce the shutdown milestone.

## Layout

- `src/` — the library, written and proved with Verus.
  - `packing.rs`, `packing_laws.rs` — the deterministic core packing and its
    laws (every core fully shared out, Asset Hub on a core of its own, no
    para lost, dropped paras reported in order, shares within one part of the
    exact proportion, per-core caps, lowest-priority paras dropped first).
  - `scheduler.rs` — what a tick decides (dispatch, hold, soak, health hold,
    shutdown announcement, packing re-assertion), the dry-run gate, and the
    history records; with the safety laws of the schedule.
  - `step_run.rs` — one step's dispatch as a sequence of actions (every
    call's dry run, then each chain's batch dry run, then the submissions)
    and what each outcome records; `reassert_run.rs` — the same for a
    packing re-assertion (at most one relay batch per era).
  - `dispatch.rs` — the three on-chain levers as plain call descriptions, in
    the order a step needs them.
  - `state.rs`, `value.rs` — the live snapshot, read by shape from decoded
    chain values (era progress, cores, minimum set size, claim queue).
  - `shared.rs`, `model.rs` — the shared runtime state and the plan / health
    views served to the dashboard.
  - `dryrun.rs` — the meaning of a dry-run answer and its error chain.
  - `config.rs`, `state_store.rs`, `control.rs`, `providers.rs`, `matrix.rs`,
    `text.rs`, `sorting.rs` — plan, persisted progress, operator control,
    offboarding notices, and small text and ordering helpers.
- `app/` — the service binary around the library: chain connections,
  storage reads, call encoding and submission, the HTTP API, the scheduler
  loop, and the real-valued figures (online fraction, shares, block times).
- `tests/` — tests of the library on concrete values.
