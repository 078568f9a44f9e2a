# literary_engine

The verified core of a Persian literary translation workflow, written in
Verus. Nearly every function under `src/` carries a `requires`/`ensures` contract
that Verus proves; the few calls into outside code (SHA-256, Unicode case and
class tables, `Debug` quoting, ZIP archives, PDF metadata, RFC 3339
times) sit behind small trusted wrappers whose
contracts are stated in their doc comments.

## Layout

- `src/` — the library, one module per concern:
  - text extraction and segmentation: `text`, `chunking`, `chapter`, `docx`,
    `epub`, `pdf`, `parser`, `plain_text`, `manuscript`, `document`, `models`,
    `error`, and `archive`, which loads DOCX, EPUB, text and PDF files from
    their bytes (PDF text is extracted by the program, which catches the
    extractor's panics, and handed in);
  - export, including the Persian right-to-left DOCX package: `export`,
    `epub_export`;
  - character context: `norm`, `character`;
  - advanced literary analysis: `analysis`, `planner`, `prompts`,
    `validation`, `disagreement`, `orchestration`, `analysis_run`,
    `mock_provider`, `provider`, `intelligence`;
  - blind provider comparison and evaluation: `blind_comparison`,
    `blind_review`, `ledger_order` (the dossier does not depend on the order
    of the ledgers), `review_ledger`, `evidence`, `admission`,
    `reveal_authority`, `digest`, `fmt`;
  - command-line helpers: `cli`, `cli_args`, `desktop`.
- `tests/` — scenario tests run against the compiled library.
- `app/` — the command-line program: file and network I/O, JSON files, and
  the OpenAI client; it hands plain values to the library and prints results.

## Checking

Verus verifies `src/`; the tests build the library with its outside crates
(`sha2`, `zip`, `lopdf` and `chrono` in the library; `pdf-extract`, `serde`,
`serde_json` and `reqwest` in the program).
