# spotdl

A command-line tool to archive and synchronize Spotify tracks for offline use,
whose core logic is a library verified with Verus.

## Layout

- `src/` — the verified library:
  - `id` — base-62 IDs, `spotify:<kind>:<id>` URIs and `open.spotify.com` URLs;
  - `manifest` — the manifest file format of `spotdl sync`;
  - `scan` — which files a scan reads and the track ID a tag holds;
  - `tag` — what is written into a track's ID3 tag;
  - `sources`, `pipeline`, `stages` — source directories, the tracks a resource
    stands for, which are left out, the order of the post-processing stages and
    the paths they write;
  - `progress` — the progress display of a download;
  - `watch` — the watcher's index of files and its socket protocol;
  - `cache` — keys, file locations and lifetimes of cached metadata;
  - `config` — what the command-line settings amount to;
  - `download`, `session`, `metadata`, `text` — sinks for samples, login types,
    metadata records and character helpers.
- `tests/` — tests of the library.
- `app/` — the command-line program: argument parsing, Spotify sessions through
  librespot, file and socket I/O, the asynchronous pipeline and the progress bars.

Run `verus` on `src/lib.rs` to check the proofs.
