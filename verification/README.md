# tanvec_ai_cn

Automatic Chinese localisation of Factorio mods: the mods updated on the mod
portal are downloaded, their English locale files compared with the cached
translation, the new entries sent to a language model, and the answers merged
into the cache, which is then packed into one translation mod.

## Layout

- `src/` — the verified library (Verus):
  - `ini_spec.rs` — the model of `rust-ini` documents and the trusted calls into it;
  - `translation.rs` — parsing and rendering INI texts, `diff_ini`, `diff_ini_keys_only`,
    `merge_ini`, and the laws that relate them;
  - `flow.rs` — reading locale files out of a mod's zip, planning the work against the
    cache, folding the model's answers back in, and the decisions of the model dialogue;
  - `prompt.rs` — the request sent to the model, entries grouped by file and section in
    sorted order;
  - `portal.rs` — the mod portal's records, queries and replies;
  - `pack.rs`, `repack.rs` — the translation pack and the per-player repack;
  - `cli.rs` — command-line arguments, mod lists and uploads;
  - `archive.rs`, `assoc.rs`, `json.rs`, `text.rs`, `time.rs` — the outside crates
    (`zip`, `indexmap`, `serde_json`, `chrono`) and `str`, as the library sees them.
- `tests/` — tests of the library.
- `app/` — the program: command line, HTTP, files, the model's client, progress bars.
