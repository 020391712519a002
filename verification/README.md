# vapor_app

The decisions of the Vapor Music player, written in Verus and proved against
their contracts; and, in `app/`, the thin shell around them that touches the
file system, the network and the system's media controls.

## Layout

- `src/` — the verified library.
  - `text`, `json`, `paths`, `clock`: shared pieces (characters, trimming,
    decimal numbers, the JSON that `serde_json` reads, paths, the wall clock).
  - `local`: hrefs of local folders, resolving them back to files, the walk's
    rule for each entry, the order a scan lists its files in.
  - `metadata`, `lookup`, `retry`: reading what Deezer and LRCLIB answer, what
    to ask them, and when to ask again.
  - `peers`: the sync protocol: who may ask what, how a fetch is answered, the
    transfer MAC and the pairing key derivation.
  - `remote_source`: reading a remote track by ranges, and the bytes kept.
  - `sorting`, `shelves`, `entities`: the stable sort, the home shelves and
    the library tabs.
  - `recordings`, `audio_window`, `shell`, `media`: copies of one recording,
    the audio a device keeps, and the small rules between screen and library.
- `tests/` — tests of the library from outside.
- `app/` — the shell: scanning folders, the sync sockets, the HTTP client, the
  media controls, and the wire formats.
