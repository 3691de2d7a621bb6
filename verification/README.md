# isms_core

The engine of a society simulation, verified with Verus: the world a
society is in, the events that change it, and the rules that decide which
events a command or a tick produces.

- `src/world.rs`, `src/ids.rs`, `src/kinds.rs`, `src/params.rs`,
  `src/constitution.rs`, `src/policy.rs`: the world and its settings. Every
  table is a `Vec` kept in increasing id order; `World::wf` states that and
  the order of each org's and workplace's lists.
- `src/apply.rs`: `apply` folds one event into the world; its contract,
  `applied`, says exactly what each event changes.
- `src/conservation.rs`, `src/ledger.rs`: money and goods are neither made
  nor lost by an event beyond what the ledger records
  (`lemma_apply_conserves`), and `conservation_check` decides that balance.
- `src/command.rs`, `src/capabilities.rs`: the commands; which of them a
  society has (`Capabilities::allows`); and `gate`, which refuses a command
  once the epoch is over or where the society does not have it. Commands are
  not routed to their handlers here.
- `src/orgs.rs`, `src/shares.rs`, `src/housing.rs`, `src/credit.rs`,
  `src/coop.rs`, `src/norms.rs`, `src/labor.rs`, `src/employment.rs`: the
  handlers of the org, share, housing and lease, membership, workplace,
  labor and employment commands, each answering with the events it makes or
  the reason it is refused (`src/message.rs` writes those reasons with the
  ids and amounts they are about).
- `src/tick.rs` and the cycle steps in `src/employment.rs` (payday, with
  each contract's pay reckoned by `accrued_pay`),
  `src/housing.rs`, `src/credit.rs`, `src/shares.rs`, `src/needs.rs`: a tick
  folds its events into the world as it emits them.
- `src/seeding.rs`: `start_epoch`, the legacy orgs, dwellings, householders
  and managers a new epoch starts with.
- `src/market.rs`, `src/store.rs`, `src/plan.rs`, `src/governance.rs`:
  order-book depth, the Common Store's need-first rationing (ties broken by
  `rand`'s shuffle), standing-plan prices, and rankings.
- `src/money.rs`, `src/amount.rs`, `src/api.rs`: amounts as text and the
  names the interface uses, with their round trips.

`tests/` runs the library on concrete societies.
