# echochamber

A live-stream relay: OBS publishes one RTMP stream to this program, which
forwards it to YouTube, X and Twitch with ffmpeg, shows a looping waiting
video while OBS is away, and can caption the stream with whisper.cpp.

The decisions and text formats of the relay are a library verified with
Verus (`src/`); the program around it (`app/`) does the I/O: the RTMP
server, the control HTTP API, child processes, files and the clock.

- `src/config.rs`: settings, defaults, publish URLs, bind overrides, the
  masked summary, which configuration file is read.
- `src/redact.rs`: stream keys masked in keys, URLs and command lines.
- `src/ffmpeg.rs`: ffmpeg argument lists for pushing, the waiting video and
  caption audio; reading ffmpeg's probe and filter listing.
- `src/ingest.rs`: which encoder may connect and publish, and the publisher
  session from publish to leave.
- `src/pusher.rs`: which pushers run, restart backoff, pusher status records.
- `src/subtitles.rs`, `src/asr.rs`: the subtitle clock, SRT/ASS text, the SRT
  reader, and the caption worker's decisions; `src/srt_roundtrip.rs` proves
  that an SRT file as the writer writes it reads back as the same cues.
- `src/meter.rs`: byte counters, their rate windows, and byte sizes for people.
- `src/validate.rs`, `src/control.rs`: the `validate` report and the control
  API's answers.
- `src/text.rs`, `src/net.rs`, `src/paths.rs`: text, socket-address and path
  helpers.

`tests/` runs the library on concrete values.
