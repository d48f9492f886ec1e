# lance_engines

The decision logic of two full-text-search engines over Lance data (one
through LanceDB, one through Lance directly), written in Verus and proved
against its contracts.

- `src/` — the verified library:
  - `text` — Unicode white space, trimming, splitting and ordering of text;
  - `decimal` — reading and writing unsigned decimal numbers;
  - `command` — the query-driver protocol (request lines, commands, replies);
  - `fts` — tokenizing user queries and building match / boolean queries;
  - `docs` — documents from JSON lines and their batching into record batches;
  - `sort`, `latency` — latency samples and their summary;
  - `latency_log` — per-command latency recording and its CSV report;
  - `driver` — a query driver's decision for each input line: the reply,
    the start of latency logging, and the latencies recorded.
- `app/` — the input/output around it: reading documents and request lines,
  the LanceDB and Lance stores, and the drivers' loops.
- `tests/` — tests of the library.
