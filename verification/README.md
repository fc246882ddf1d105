# wifiqr

A verified library behind a command that generates Wi-Fi QR codes as PNG,
SVG or terminal text art.

- `src/` — the library, verified with Verus: Wi-Fi payloads and field
  escaping (`wifi`), the request and output options (`options`), the
  bordered module grid (`matrix`), the three renderers (`ascii`, `svg`,
  `png`), build metadata (`version`), error messages (`error`) and text
  helpers (`text`).
- `app/` — the command: argument parsing with clap, build metadata from
  the compile-time environment, and writing files or stdout.
- `tests/` — tests of the library on concrete values.
