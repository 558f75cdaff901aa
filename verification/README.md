# coregeek

Verified decision logic of a two-team base-defence bot, written in Verus.

- `src/` is the library. Every function is verified against its contract:
  the board model (`model`), walking and reachability (`path`), the role
  planners and their helpers (`brain`: base layout and wall geometry,
  building, mining, selling and shopping, the day and night plans,
  weapon targeting and its firing simulation, the economy, the news reader,
  the adaptive coach, score attribution), the A/B battle report
  (`abreport`), and text and JSON reading (`text`, `json`).
- The one outside crate called from the library is `serde_json`, through the
  trusted reader in `src/json.rs`.
- `app/` is the A/B report program and the process-side helpers: the tuning
  dial read from `CG_TUNE_*`, and the coach's learning file.
- `tests/` hold the scenario tests.
