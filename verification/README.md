# satscanner

A terminal satellite tracker: it downloads (or reads from a local cache) the
active-satellite element sets from Celestrak, propagates them with SGP4 and
shows them on an overhead map, a polar sky view and a placeholder band view.

The decision-making core is a Verus-verified library under `src/`:

- `tle` — TLE text parsing (nonblank trimmed lines in groups of three, handed
  to `sgp4` with recomputed checksum digits), the choice between cache and
  download, and the fallback after a failed download.
- `log` — the bounded in-app event log (the latest 500 entries), cutting the
  tracing byte stream into leveled entries, log-file size accounting and the
  log panel window.
- `app` — the interactive state machine: views, zoom, overlays, key handling,
  the download lifecycle on each tick, arrow-key selection of satellites and
  the status line.
- `views` — the view enum and the altitude regimes (LEO/MEO/GEO/HEO).
- `calendar` — the whole-day part of the Julian date, with the Gregorian
  day-count laws proved.
- `text` — character-level helpers: Unicode white space, trimming, splitting,
  decimal formatting.

`app/` is the program around it: terminal set-up, drawing with ratatui, the
floating-point geodesy and ephemerides, SGP4 propagation, HTTP and file I/O,
and the tracing plumbing. `tests/` exercises the library.
