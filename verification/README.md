# gnome-power-toys

GNOME desktop utilities: a zone-tiling daemon (`org.gnome.Zones`), a
clipboard-history daemon (`org.gnome.Clips`) and the clipboard-history
window with its tray icon.

## Layout

- `src/` — the verified library (Verus). The decisions the programs make
  live here with their contracts, and so does the order of the work in a
  snap, a zone iteration, a focus cycle and a restore:
  - `geometry` — pixel rectangles, gap deflation, indexed zone iteration;
  - `engine` — the snap, iteration, cycle and restore steps, from stage and outcome to the
    next stage and the work to do;
  - `snap` — per-window snap state, zone-set planning, iteration and focus
    cycling targets, restore and activator decisions;
  - `zones` — layouts and monitors as the daemon lists them, monitor keys,
    settings parsing, error texts, window queries;
  - `hotkeys` — the GNOME bindings that collide with the zone hotkeys;
  - `clips`, `clipboard`, `preview` — clip records, history query and
    ordering, configuration, clipboard reading/writing decisions and
    previews;
  - `clips_ui` — labels, filters, ages, accelerators and key handling of
    the history window;
  - `textutil` — character-level helpers (trimming, whitespace, decimal
    text, integer parsing).
- `tests/` — tests of the library.
- `app/` — the programs around the library: SQLite storage, D-Bus
  services and proxies, clipboard I/O, the GTK window and the tray icon,
  and the zone geometry held in floating point.

Run `gnome-power-toys zones`, `gnome-power-toys clips` or
`gnome-power-toys clips-ui`.
