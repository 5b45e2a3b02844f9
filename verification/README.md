# agentprof

Profiler for the tool calls of a coding agent. The agent's hooks append one
JSON line per `PreToolUse` / `PostToolUse` event to a log; `agentprof`
pairs the events, prints a report and serves a dashboard, and installs or
removes its own hooks in the agent's settings file.

Layout:

- `src/` — the verified library (Verus):
  - `timestamp.rs`: instants, their differences and their time of day, as
    chrono computes them;
  - `analysis.rs`: pairing of events and per-tool statistics;
  - `dashboard.rs`: the dashboard data;
  - `report.rs`, `sorting.rs`, `format.rs`: report orderings, sorting, and
    the text of token counts (exactly as `{:.1}` prints the `f64` quotient);
  - `hook.rs`, `tokens.rs`: log entries built from hook input, token counts
    (tiktoken's cl100k_base);
  - `json.rs`: JSON text read with serde_json (hook input, settings files)
    and its values as the library models them;
  - `settings.rs`: installing and removing the hooks in a JSON settings value;
  - `watch.rs`: when the dashboard reloads its log file, poll by poll.
- `app/` — the command-line program: argument parsing, files, standard input,
  serde conversions of log lines, printing, the web server.
- `tests/` — tests of the library.
