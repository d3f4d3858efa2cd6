# entroptui

A terminal viewer for exploring large files: it slides a window across the
bytes and shows entropy as a chart, a Hilbert-curve heat map or a hex dump,
with heuristic guesses about the content (magic bytes, text, base64/hex,
compressed or encrypted data).

## Layout

- `src/` — the verified library (Verus). Every function carries a contract
  and is proved:
  - `view` — the view cycle Chart → Hilbert → Hex.
  - `bytes` — byte classes and counting.
  - `magic` — signature scanning (`scan_magic`, `find_subslice`);
    appending bytes never drops or moves a signature hit.
  - `stats` — byte statistics of a sample (histogram, class counts,
    UTF-8 validity, signatures).
  - `bins` — splitting a window into bins; the bins partition the window.
  - `entropy` — little-endian symbol counting, dense or in an
    `ahash::AHashMap`; dense and sparse counts agree and add up to the
    number of symbols.
  - `bitplane` — bit-plane counts and series names.
  - `hilbert` — largest power-of-two grid, Hilbert distance to cell; on a
    power-of-two grid the curve visits every cell exactly once, steps
    between neighbouring cells, and runs from `(0, 0)` to `(side - 1, 0)`.
  - `spectral` — transform sizes and resampling for spectral flatness.
  - `hexdump` — the text of a hex-viewer line.
  - `state` — navigation state, keyboard commands and cache keys.
- `app/` — the terminal program: argument parsing, file reading, the
  floating-point analyzers (entropy, spectral flatness, bit-plane entropy),
  the suggestion heuristics, and drawing with ratatui.
- `tests/` — tests of the library.

## Usage

```bash
entroptui path/to/file.bin --window 1048576 --offset 0
```

Keys: ←/→ scroll by one hex page, PgUp/PgDn by one window, Home/End jump,
`+`/`=` zoom in, `-` zoom out, `b` cycle the entropy symbol width
(1 → 2 → 4 bytes), `v` cycle the view, `c` cycle the analyzer,
`h`/`j`/`k`/`l` move the Hilbert cursor and Enter jumps to its cell in the
hex view,
`q`/Esc/Ctrl+C quit.
