# liven

Liven is a database for data that moves: it ingests records into streams,
transforms them with a pipeline query language, and stores them durably in
append-only segment files. This crate holds its core as a library verified
with Verus; `app/` is the command line around it.

## Layout

- `src/` — the verified library.
  - `parser.rs`, `query_parser.rs`, `query.rs`: the pipeline query language
    and its builders.
  - `storage/`: stream keys, the frame format of segment files, batches of
    writes with their sequence numbering and segment rollover, the key index
    (with compaction's repointing) and the timestamp index, and recovery from
    the segments.
  - `executor.rs`, `filter.rs`, `join.rs`, `sequence.rs`, `group.rs`,
    `window.rs`, `mutation.rs`, `explain.rs`: executing pipelines (selecting and paging records,
    filters with their text operators, time-bounded correlation, chains and
    `distinct`, grouping, time windows, the sequence matcher), planning writes, and
    describing plans.
  - `json_doc.rs`: stored JSON and MessagePack documents, read and written
    with `serde_json` and `rmp_serde`, and the fields read out of them.
  - `codec.rs`, `transfer.rs`: the wire framing, and import and export.
  - `security.rs`, `access.rs`, `client.rs`, `config.rs`, `cli.rs`:
    capabilities and hex keys, the web console's access rules, connection
    strings, configuration defaults and command-line options.
  - `shell.rs`, `card.rs`, `display.rs`: the interactive console's line
    editor, its command reading and the text cards it prints.
- `tests/` — tests of the library.
- `app/` — the `liven` command: files, the terminal, and the parts of
  queries that compute with floating-point numbers.

Every public function of the library states what it does in its contract;
laws that span several functions are stated as proof functions beside them.
