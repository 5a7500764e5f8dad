# volume11

Per-application volume for Windows, as a tray program. The library in `src/`
holds the program's rules, each with a contract proved by Verus; `app/` is the
Windows program around it (COM audio, registry, tray icon, egui window, the
JSON configuration file).

## Layout

- `src/config.rs` — settings and saved levels, one set per playback device,
  and the move of version-1 levels to the device in use. `src/keyed.rs` holds
  the sorted key/value list they are stored in.
- `src/audio/` — session keys, labels, listing order, what the audio thread
  does about each notification, which cached sessions survive a rebuild;
  `process.rs` turns an executable path or version resource into a key and a
  label.
- `src/autostart.rs` — the `Run` command and Task Manager status record, how
  they read back, and when a dead entry is repaired.
- `src/tray.rs`, `src/ui/` — how the tray window answers messages, and the
  decisions of the mixer window: tray actions, a program starting, saving and
  applying levels, switching devices, accent colours, the palette, where the
  window may open, typed percentages, icon pixels.
- `src/text.rs` — string helpers and the few calls into std whose results the
  contracts name or state.
- `tests/` — concrete cases, run against the compiled library.

Laws that span several functions are public proof functions named
`lemma_*`, next to the functions they speak of.
