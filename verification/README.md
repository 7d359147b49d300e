# skill_lsp

A language server for Cadence SKILL whose logic is verified with Verus.

- `src/` is the verified library: text and line handling (`text`), documents
  held in a rope (`document`), definitions and their documentation comments
  (`symbols`, with regular expressions in `pattern`), the workspace symbol
  table (`table`), the index of the official API functions (`api`),
  diagnostics and the formatter (`diagnostics`), hover (`hover`), completion
  and signature help (`completion`), the answers to the other requests
  (`server`), the editor extension's search for the server binary
  (`extension`), and the properties that hold across functions (`laws`).
- `app/` runs the server over the Language Server Protocol (tower-lsp),
  loads the API reference data (`SKILL_API_JSON`, or `data/skill_api.json`),
  and holds the Zed extension glue.
- `tests/` exercises the library on concrete inputs.
