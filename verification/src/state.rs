//! Plain records of what the running relay knows and reports.
use vstd::prelude::*;

verus! {

/// App + stream name the encoder actually published (OBS often puts
/// `/live` on the server URL, so app is `echochamber/live` not `echochamber`).
#[derive(Debug, Clone)]
pub struct PublishedStream {
    pub app: String,
    pub stream_key: String,
}

/// What the caption worker reports.
#[derive(Debug, Clone)]
pub struct AsrStatus {
    pub enabled: bool,
    pub cues: u64,
    pub last_error: Option<String>,
    pub last_text: Option<String>,
}

impl Default for AsrStatus {
    fn default() -> (r: Self)
        ensures
            !r.enabled,
            r.cues == 0,
            r.last_error is None,
            r.last_text is None,
    {
        AsrStatus { enabled: false, cues: 0, last_error: None, last_text: None }
    }
}

#[derive(Debug, Clone)]
pub struct IngestStatus {
    pub bind: String,
    pub publishing: bool,
    /// Destinations are looping the local slate (OBS is down).
    pub standby: bool,
    pub play_url: String,
    pub stream_key: String,
}

#[derive(Debug, Clone)]
pub struct FfmpegStatus {
    pub bin: String,
    pub burn_in_available: bool,
}

} // verus!
