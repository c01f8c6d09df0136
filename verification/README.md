# deskmate

The logic of the DeskMate desktop pet as a verified Verus library.

- `src/` is the library; every function in it carries a contract that
  Verus proves. Settings hygiene and settings merging, the reminder
  schedule and its loop step, pet package validation (reading the zip
  archive's listing and entries through the `zip` crate), pet folder
  scanning, the online catalog rules, pet selection and upgrades, window
  bookkeeping, download limits and the motion engine's decisions live
  here. The settings' floating-point values (scale and speed) are clamped
  in `app/`. `src/laws.rs` states properties across calls (sanitizing is
  idempotent, snoozed reminders stay quiet, uninstalling keeps a non-empty
  selection, drags report once, scans yield unique ids in folder-name
  order, accepted catalogs and packages are well formed).
- `app/` is ordinary Rust around it: files, downloads, serialized types,
  floating-point motion, and the loops driven through the desktop shell.
- `tests/` exercises the library with concrete values.
