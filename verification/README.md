# equium_fleet_tools

Operator tooling for a fleet of Equium CPU miners, written in Verus. The
library holds the rules of the `equium-fleet` command and proves them; the
program around it does the file, network and process work.

## Layout

- `src/` — the verified library.
  - `text.rs`: character-level helpers (trimming, searching, decimal digits,
    padding) with their lemmas.
  - `amounts.rs`: SOL amounts in decimal and lamports, both directions, and
    the proof that printing and parsing give back the same lamports.
  - `manifest.rs`: the wallet manifest, worker names and key file paths.
  - `distribution.rs`: top-up plans, batching, the funding check with its fee
    reserve, and the decoding of recipient keys into transfer instructions.
  - `selection.rs`: the `--workers` selector (`all`, a count, ranges, names).
  - `supervisor.rs`: restart and stagger rules for supervised miners.
  - `monitor.rs`: classification of miner output and the run summary.
  - `agent.rs`, `commands.rs`: the agent status report, the next safe
    actions, and the decisions of the wallet and distribution commands.
- `tests/` — the test suite, run against the compiled library.
- `app/main.rs` — the command line program: argument parsing, the manifest
  and key files, RPC calls, signing, child processes and their logs.
  It talks to the cluster through `solana_client::rpc_client::RpcClient`, so
  building `app/` needs `solana-client` added to `Cargo.toml`.

The library's public functions state their results in `ensures` clauses over
spec functions; the laws that relate several functions are the public
`lemma_*` proof functions.
