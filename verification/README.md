# meeting_export

Markdown export of recorded meetings, verified with Verus.

`src/` holds the exporter: it turns a meeting (title, metadata, stored
summary, transcript segments) into a Markdown document and suggests a
filename for it. Every function there carries a contract stated over
sequences of characters, and the rendering rules are spec functions:

- `json` — the JSON document model the renderer reads (`JsonValue`) and its
  lookups.
- `text` — whitespace trimming, decimal digits, repetition.
- `inline`, `blocknote` — BlockNote inline content, blocks, lists, code
  blocks and tables.
- `summary` — the three stored summary shapes and which one wins.
- `document` — export options, transcript lines, the whole document.
- `filename` — the filename slug and suggested filename.
- `clock` — the calls into chrono (local time), trusted.

`app/` is the Tauri side: the two commands, the database reads, the serde
forms of the option and export types, the conversion from `serde_json::Value`,
and the floating-point recording offset.
