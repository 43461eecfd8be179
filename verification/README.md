# ingst

The decision-making core of Ingst, a desktop tool that copies footage from
cameras, cards and drones into a library organised as
`<library>/<YYYY>/<MM>/<device>/`, written in Verus and proved against its
contracts.

## Layout

- `src/` — the verified library.
  - `text.rs`, `paths.rs` — text and `/`-separated path helpers, each against
    a spec function (file name, stem, extension, parent, join; words, lines).
  - `formats.rs` — the table of supported media formats and classification
    by extension, with the table's laws (lower-case, no duplicates).
  - `metadata.rs` — capture dates and device names from EXIF fields, from the
    video probe's JSON, and from camera file names.
  - `scan.rs` — which folders are walked, which files are media, the record
    of a scanned file and the summary of a source.
  - `plan.rs` — the plan: year/month folders, device folders, collision-free
    destinations, duplicate decisions confirmed by whole-file hashes, and
    sidecars; with the laws that no two destinations collide and that only
    confirmed duplicates are skipped.
  - `hashing.rs` — the sampled fingerprint and whole-file SHA-256.
  - `logging.rs` — log entries, the persistent duplicate index and log
    rotation.
  - `executor.rs` — the transfer state machine (copy to `.part`, verify,
    rename into place), the run's tally, dispatch under cancel and pause, and
    progress events.
  - `volumes.rs`, `video.rs`, `thumbnail.rs` — mounted volumes from `df`/`wmic`
    output, the video backend and its programs' arguments, and previews.
- `tests/` — tests run against the compiled library.
- `app/` — the desktop shell: commands, disk and process I/O, JSON. It hands
  the library `/`-separated paths, converting Windows paths on the way in.
