# lsp-bench

A benchmark harness for LSP servers: it spawns each configured server,
drives it over JSON-RPC on stdio, times the requests, checks the responses
against expectations, and writes JSON results and Markdown reports.

## Layout

- `src/` is the verified library (Verus). It holds the logic of the tool:
  - `protocol` — message framing, the header reader, JSON-RPC envelopes and
    the decisions taken on server messages;
  - `requests` — the params of each benchmarked request, and reading a
    recorded request for replay;
  - `response`, `expect`, `report`, `summary`, `compact` — validity of
    responses, expectation checks, correctness verdicts, one-line summaries
    and compact renderings;
  - `edits`, `lifecycle` — applying text edits, planning rename sequences
    and the record that puts renamed files back;
  - `config` — defaults, the server registry, settings, benchmark selection,
    included configurations and their merge, and the tally of `--verify`
    checks;
  - `session`, `competition`, `readme`, `analysis`, `delta`, `doc`, `render` —
    the report documents;
  - `json`, `parse`, `serialize`, `text` — the JSON model and text helpers;
  - `files`, `versions` — choosing the latest results file, reading version
    output and resolving servers labelled `latest`;
  - `laws` — properties that span several functions.
- `tests/` exercises the library on concrete values.
- `app/` is the program around it: command line, configuration files,
  processes and pipes, timing and the floating-point figures. The report
  programs (`gen-report`, `gen-readme`, `gen-analysis`, `gen-delta`) are the
  same executable started under those names.
