# dsh_client

Desktop client core for the `dsh web` daemon: it keeps the daemon running,
talks to its `/api`, manages plugins of the `web` profile, and checks the
local Node toolchain before anything starts.

`src/` is a Verus-verified library. Each module states its behaviour in
`requires` / `ensures` over mathematical models and proves it:

- `bridge`, `json`: the `/api` envelope (build, validate, fold business errors)
- `supervisor`: the supervision loop as a state machine (`SupervisorCore`),
  the log tail, readiness-line parsing, liveness probe counting
- `preflight`: Node version parsing and `engines.node` range matching, and the
  report the UI gates on
- `resolve`: how the dsh CLI is reached (override, `dsh`, `npx`)
- `home`, `patch`: the dsh home and the managed lines of `cordis.patch.yml`
- `tasks`: plugin install/remove tasks and the board the UI lists
- `shell`: decisions of the desktop shell (event channels, navigation, guards)
- `text`, `ids`: character-level helpers and random identifiers

Laws that span several calls are public proof functions (`lemma_*`), for
instance idempotence of patch writes, retention of finished tasks, and that a
stop is always announced.

`app/` is the unverified runtime around the library: process spawning,
tokio loops, file I/O, the HTTP client and the Tauri shell. `tests/` runs the
library on concrete inputs.
