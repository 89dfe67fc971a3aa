# waywallen

The decision-making core of the waywallen wallpaper daemon, written in
Verus: every function in `src/` carries a `requires`/`ensures` contract that
Verus proves, and the properties that span several calls are stated as
`law_*` proof functions next to the code they are about.

## Layout

- `src/` — the verified library, one module per concern:
  - buffer exchange: `negotiate` (format and modifier choice), `release`
    and `reaper` (release ordering of shared frames), `drm_syncobj`
    (classifying sync-object waits), `renderer_events`, `subscriptions`,
    `pcm_window`, `audio_slot`;
  - renderer lifecycle: `slot`, `start_schedule`, `deadline`, `tasks`,
    `reported_state`, `process_stdio`;
  - routing and displays: `routing`, `geometry`, `display_registry`,
    `consumption`, `auto_replay`, `manual`;
  - media and session: `mpris`, `players`, `art_cache`, `session`,
    `audio`, `media`, `autostart`;
  - plugins and settings: `installer`, `i18n`, `source_types`, `catalog`,
    `qr_login`, `settings_resolve`, `paths`, `redact`;
  - system facts: `gpu`, `system_info`, `caps_dump`;
  - shared helpers: `text`, `btree_order`.
- `tests/` — tests of the library on concrete values.
- `app/` — the parts that need the operating system or floating point:
  reading system files and the environment, the float layout maths, and
  the float/bit-pattern conversions at the edge of the library.

Outside crates are reached only through small trusted wrappers whose
contracts are documented where they are declared (`base64`, `sha2`,
`qrcode`, and `reqwest`'s URL parser).

Run `verus` on `src/lib.rs` to check the proofs; the tests run as ordinary
Rust tests against the compiled library.
