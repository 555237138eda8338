# data_scraper

A desktop web scraper whose core is a Verus-verified library.

- `src/` — the verified library: the data model (`types`), an insertion-ordered
  record map (`field_map`), HTML record extraction with CSS selectors (`html`),
  JSON parsing, flattening and paths (`json`), character-set detection and decoding
  (`charset`), retry decisions for HTTP requests (`retry`), the interval
  scheduler (`schedule`), job pages, results and statistics (`engine`), CSV and
  JSON export content (`export`), reading stored results back (`stored`), the view logic of the user interface (`ui`)
  and character-level string helpers (`text`). The HTML parser, URL joining,
  character decoders, the CSV writer, the JSON parser and writer and the
  date-time parser are those of the `scraper`, `url`, `encoding_rs`, `csv`,
  `serde_json` and `chrono` crates, called behind small trusted functions whose
  contracts are stated next to them.
- `tests/` — tests of the library.
- `app/` — the program around it: the egui window, HTTP requests (reqwest),
  the SQLite store (rusqlite), the settings file (serde_yaml), the async
  scheduler loop (tokio) and file exports.
