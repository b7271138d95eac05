pub mod text;
pub mod redact;
pub mod net;
pub mod paths;
pub mod config;
pub mod state;
pub mod ffmpeg;
pub mod subtitles;
pub mod pusher;
pub mod validate;
pub mod asr;
pub mod meter;
pub mod ingest;
pub mod control;
pub mod srt_roundtrip;
