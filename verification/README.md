# cbstream

Records live streams of followed models on several cam platforms (SC, SCVR, MFC, BONGA,
SODA, F4F, C4): it watches a JSON configuration file, checks each model, and while she is
online downloads the segments of her playlist and joins them into recordings. The file may
also list models under CB; CB has no lookup or playlist reader, so they are never recorded.

## Layout

- `src/` is the verified library (Verus). It holds the program's decisions; app/ carries them
  out and keeps the thread, file and network plumbing around them:
  - `config.rs`: the configuration (settings and the models followed on each platform), how a
    newly read file is taken over, and the table written back to the file;
  - `platforms/`: the platforms, the models, and for each platform the reading of its
    playlists and of its lookup answers (`scan.rs` reads the playlists that need an
    initialisation segment first and can be resumed once it is downloaded);
  - `stream.rs`: segments and playlists, and the decisions of the loop that follows a
    playlist (which segments are new, how they are numbered, when to give up);
  - `muxer.rs`: container formats, extensions, the ffmpeg arguments, and the steps of a
    muxing round (when to take the next segment, wait or end, and what to do with the files);
  - `text.rs`, `util.rs`, `json.rs`: text handling on characters, names and paths (the
    recording's folder, the date stamp), request retries and failure texts, and the JSON
    values the lookups read;
  - `outside.rs`: the calls into `sha2`, `base64`, `regex`, `chrono` and the unspecified
    parts of `std`, with the contracts they are trusted to meet.
- `app/` is the program around it: HTTP requests, the WebSocket, files, threads, signals,
  ffmpeg and the serde form of the configuration file; it runs the loops whose steps the
  library decides.
- `tests/` runs the library on concrete inputs.

## Usage

Run the program with the path of the configuration file as its first argument, or set
`CONFIG`; otherwise `cb-config.json` in the working directory is used, and created when
missing. Temporary recordings go under `TEMP` (default `/var/tmp`) in `cbstream/`; finished
ones under a directory named after each model.
