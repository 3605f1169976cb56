# zotron

A command-line client for the Zotron plugin of Zotero, and an academic
search tool, with their logic verified by Verus.

- `src/` is the verified library. `cli/` holds the Zotero commands: each
  command's contract states the JSON-RPC calls it makes (method and
  parameters, in order) and what it answers for every reply, through the
  ghost record of exchanges that an `RpcCaller` keeps. `json.rs` models JSON
  documents, `output.rs` the list envelope and error classification,
  `plugins.rs` plugin discovery and command suggestions, `web/` and
  `scholar/` the requests to and replies from the academic APIs, `ocr.rs`
  and `rag.rs` the settings and bookkeeping of OCR and retrieval.
- `app/` is the program around it: argument parsing, files, standard input,
  the network, processes and printing.
- `tests/` runs the library on concrete inputs with a scripted RPC client.

Some commands are not part of this build: OCR, local hybrid retrieval, the
other `rag` commands, and quick search (`zotron search "…"` without a
filter). They rest on the `zotron_types` crate (provider tables, chunking,
scoring, and the test that recognises the plugin's evidence attachments),
which this build does not have; the program answers them with an
`UNSUPPORTED` error. The library holds the parts of them that do not need it
(`run_search` and `finish_quick_search`, `run_rag_search_in_zotero`,
`resolve_ocr_process_settings`, `ocr_status_report`, `check_mineru_sources`).
