# battery_modify

Battery-level takeover daemon for Android (Magisk module). It simulates the
level from the battery voltage, fuses it with the fuel gauge's RM/FCC,
smooths and rate-limits the result, and publishes it with
`dumpsys battery set level`.

Layout:

- `src/` — the library, verified with Verus: the `KEY=value` configuration
  and its limits (`config`), the voltage table format and its segment lookup
  (`vcurve`), the state file (`smoother`), the battery node probe and current
  sign detection (`source`), the debounced charge mode, low-voltage valve,
  publishing period and kernel watchdog (`monitor`), sysfs values and
  housekeeping (`util`), and the text primitives they rest on (`text`).
- `app/` — the daemon: file and process I/O, the timer loop, and the
  floating-point level estimation (voltage filtering, kernel fusion,
  smoothing), which the library cannot hold.
- `tests/` — tests of the library, including comparisons with `str::trim`,
  `char::is_whitespace` and `str::parse`.
