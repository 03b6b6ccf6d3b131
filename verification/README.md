# barcode_proto

The wire protocol between a phone that scans barcodes and QR codes and a
desktop receiver, with the receiver's bookkeeping, written in Verus and
verified.

- `src/` — the verified library.
  - `kind`, `error` — code kinds and the reasons a frame or code is refused.
  - `wire` — big-endian length prefixes and UTF-8 code fields.
  - `scan` — the scan stream (kind, code, image) and its acknowledgement.
  - `sync` — the sync-poll and sync-all streams and stream routing.
  - `card` — card numbers extracted from scanned codes.
  - `store` — the receiver's checked states and scans seen, answering the phone.
  - `shops`, `display`, `labels`, `numbers`, `order`, `table`, `entry` — how
    the receiver recognises shops, formats, labels and orders its scans.
  - `pairing`, `text` — connection tickets, the pairing QR code, UTF-8 text.
  Each format is given as a spec function; the encoders and decoders are
  proved to compute exactly those, and the `law_*` proof functions state
  what holds across them (what one side writes, the other reads back).
- `tests/` — tests on concrete values.
- `app/` — the programs around the library: the desktop receiver's UI and
  network loop, the stream I/O, and the Android and iOS bridges.
