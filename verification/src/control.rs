//! The control API's answers: ad-hoc destinations added over `/push`, and the
//! plain parts of the `/status` report.
use vstd::prelude::*;
use vstd::string::*;

use crate::config::{destination_views, Config, Destination};
use crate::redact::{masked_key, redact_key};
use crate::state::IngestStatus;
use crate::text::{decimal, decimal_string, is_blank, trim};

verus! {

/// Why a `/push` request is refused.
#[derive(Clone, Copy, Debug, PartialEq, Eq, Structural)]
pub enum PushError {
    UrlRequired,
}

impl PushError {
    pub open spec fn text(self) -> Seq<char> {
        match self {
            PushError::UrlRequired => "url required"@,
        }
    }

    pub fn message(self) -> (r: String)
        ensures
            r@ == self.text(),
    {
        match self {
            PushError::UrlRequired => "url required".to_string(),
        }
    }
}

/// The name an unnamed ad-hoc destination gets, from a millisecond clock reading.
pub open spec fn adhoc_name(id: u64) -> Seq<char> {
    "adhoc-"@ + decimal(id as nat)
}

/// The destination a `/push` with `url` and an optional `name` adds; `id`
/// names it when no name was given. A blank URL is refused.
pub fn adhoc_destination(url: String, name: Option<String>, id: u64) -> (r: Result<Destination, PushError>)
    ensures
        trim(url@).len() == 0 <==> r is Err,
        r is Err ==> r == Err::<Destination, PushError>(PushError::UrlRequired),
        match r {
            Ok(d) => d.url@ == url@ && d.name@ == (match name {
                Some(n) => n@,
                None => adhoc_name(id),
            }),
            Err(_) => true,
        },
{
    if is_blank(url.as_str()) {
        return Err(PushError::UrlRequired);
    }
    let n = match name {
        Some(n) => n,
        None => {
            let mut s = "adhoc-".to_string();
            s.append(decimal_string(id).as_str());
            s
        },
    };
    Ok(Destination { name: n, url })
}

/// The reply to an accepted `/push`.
pub fn push_reply(name: &str) -> (r: String)
    ensures
        r@ == "added destination "@ + name@ + "\n"@,
{
    let mut s = "added destination ".to_string();
    s.append(name);
    s.append("\n");
    s
}

/// The ingest part of the status report: where OBS publishes, whether it
/// does, whether the waiting video is out, where to play the stream, and the
/// key masked.
pub fn ingest_status(cfg: &Config, publishing: bool, standby: bool) -> (r: IngestStatus)
    ensures
        r.bind@ == cfg.ingest.bind@,
        r.publishing == publishing,
        r.standby == standby,
        r.play_url@ == cfg.play_url(),
        r.stream_key@ == masked_key(cfg.ingest.stream_key@),
{
    IngestStatus {
        bind: cfg.ingest.bind.clone(),
        publishing,
        standby,
        play_url: cfg.local_rtmp_url(),
        stream_key: redact_key(cfg.ingest.stream_key.as_str()),
    }
}

/// How many destinations the status counts: the configured ones and the
/// ad-hoc ones.
pub fn destination_count(cfg: &Config, adhoc: usize) -> (n: usize)
    requires
        adhoc <= usize::MAX - 3,
    ensures
        n == cfg.destinations().len() + adhoc,
{
    let d = cfg.configured_destinations();
    assert(d@.len() == destination_views(d@).len());
    assert(cfg.destinations().len() <= 3);
    d.len() + adhoc
}

/// The measuring window shown is never zero.
pub fn shown_window_ms(window_ms: u64) -> (r: u64)
    ensures
        r == (if window_ms == 0 {
            1
        } else {
            window_ms
        }),
{
    if window_ms == 0 {
        1
    } else {
        window_ms
    }
}

} // verus!
