# dxray

A read-only static analyser for Windows game installations on Linux, written
in Verus: what a game's executables import, which renderer and upscaler
libraries ship beside them, which Steam and Heroic installations and games the
machine holds, and what Proton does to a game's NVAPI.

## Layout

- `src/` is the verified library. Every decision is made there, over plain
  values, with its contract proved: PE parsing (`pe`), KeyValues (`vdf`),
  the evidence analysis (`analysis`, `evidence`), the ranking of a game's
  executables (`game`, `install`), the launchers (`launcher`, `steam`,
  `heroic`), the Proton script reader and the NVAPI answer (`nvapi`,
  `proton`), and mount-table and path handling (`paths`, `file_path`).
- `app/` reads the machine: it lists directories, reads files and the
  environment, resolves symlinks, and hands what it read to the library.
  Where reading and deciding alternate, as in the bounded scan for container
  homes (`paths::HomeScan`), the library decides each next read and `app/`
  performs it.
- `tests/` exercises the library on in-memory inputs.

The laws the library keeps stand in `src/` as public proof functions, such as
`launcher::lemma_walk_libraries_once`, `game::lemma_ranking_ignores_discovery_order`,
`analysis::lemma_analyse_reported`, `nvapi::environment::lemma_resolve_laws`,
`heroic::lemma_scan_documents_laws` and `paths::lemma_home_run`.
