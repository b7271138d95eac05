//! The decisions of the pusher supervisor: which pushers run for the current
//! publishing state, when the waiting video goes out, how restarts back off,
//! and how ffmpeg's progress is shared out between destinations.
use vstd::prelude::*;
use vstd::string::*;

use crate::config::{destination_views, Config, Destination};
use crate::paths::opt_view;
use crate::redact::{masked_url, redact_url, vec_range};
use crate::text::{chars_of, parse_u64, parse_u64_spec, starts_with, str_eq, trim, trim_bounds};

verus! {

/// What a set of pushers sends: the live ingest, or the waiting video.
#[derive(Clone, Copy, Debug, PartialEq, Eq, Structural)]
pub enum PushMode {
    Live,
    Standby,
}

/// Whether pushers of `mode` belong on air while OBS is (or is not) publishing.
pub open spec fn runs_in(mode: PushMode, publishing: bool) -> bool {
    match mode {
        PushMode::Live => publishing,
        PushMode::Standby => !publishing,
    }
}

/// The state a running pusher of `mode` reports.
pub open spec fn mode_label(mode: PushMode) -> Seq<char> {
    match mode {
        PushMode::Live => "running"@,
        PushMode::Standby => "standby"@,
    }
}

impl PushMode {
    pub fn should_run(self, publishing: bool) -> (b: bool)
        ensures
            b == runs_in(self, publishing),
    {
        match self {
            PushMode::Live => publishing,
            PushMode::Standby => !publishing,
        }
    }

    pub fn label(self) -> (r: String)
        ensures
            r@ == mode_label(self),
    {
        match self {
            PushMode::Live => "running".to_string(),
            PushMode::Standby => "standby".to_string(),
        }
    }
}

/// Whatever OBS is doing, exactly one kind of pusher belongs on air.
pub proof fn lemma_one_mode_on_air(publishing: bool)
    ensures
        runs_in(PushMode::Live, publishing) != runs_in(PushMode::Standby, publishing),
{
}

/// Where the live subtitle files are written: `(srt, ass)`.
pub fn sidecar_paths() -> (r: (String, String))
    ensures
        r.0@ == "echochamber_live.srt"@,
        r.1@ == "echochamber_live.ass"@,
{
    ("echochamber_live.srt".to_string(), "echochamber_live.ass".to_string())
}

/// What the supervisor does while OBS is not publishing.
#[derive(Clone, Copy, Debug, PartialEq, Eq, Structural)]
pub enum IdlePlan {
    /// Stop every pusher and wait.
    Quiet,
    /// After the delay, loop the waiting video to every destination.
    Standby,
}

/// The waiting video goes out only with somewhere to send it, the feature on,
/// its file found, and (if so configured) OBS having gone live once.
pub open spec fn standby_wanted(
    dests_empty: bool,
    standby_enabled: bool,
    after_first_publish: bool,
    ever_published: bool,
    video_found: bool,
) -> bool {
    !dests_empty && standby_enabled && !(after_first_publish && !ever_published) && video_found
}

pub fn idle_plan(
    dests_empty: bool,
    standby_enabled: bool,
    after_first_publish: bool,
    ever_published: bool,
    video_found: bool,
) -> (r: IdlePlan)
    ensures
        (r == IdlePlan::Standby) == standby_wanted(
            dests_empty,
            standby_enabled,
            after_first_publish,
            ever_published,
            video_found,
        ),
{
    let waiting_for_first = after_first_publish && !ever_published;
    if dests_empty || !standby_enabled || waiting_for_first || !video_found {
        IdlePlan::Quiet
    } else {
        IdlePlan::Standby
    }
}

/// A pusher keeps going while its generation is current and its mode belongs on air.
pub fn keep_running(current_epoch: u64, epoch: u64, mode: PushMode, publishing: bool) -> (b: bool)
    ensures
        b == (current_epoch == epoch && runs_in(mode, publishing)),
{
    current_epoch == epoch && mode.should_run(publishing)
}

/// The longest wait between restarts of a failing pusher.
pub const MAX_BACKOFF_MS: u64 = 30_000;

/// The next wait after a failed run: twice the last, at most thirty seconds.
pub fn next_backoff_ms(ms: u64) -> (r: u64)
    ensures
        r == (if 2 * ms < MAX_BACKOFF_MS {
            2 * ms
        } else {
            MAX_BACKOFF_MS as int
        }),
{
    if ms < MAX_BACKOFF_MS / 2 {
        ms * 2
    } else {
        MAX_BACKOFF_MS
    }
}

/// Waits between restarts never shrink and never pass thirty seconds.
pub proof fn lemma_backoff_grows_to_a_cap(ms: u64)
    requires
        ms <= MAX_BACKOFF_MS,
    ensures
        ({
            let next = if 2 * ms < MAX_BACKOFF_MS {
                2 * ms
            } else {
                MAX_BACKOFF_MS as int
            };
            ms <= next <= MAX_BACKOFF_MS
        }),
{
}

/// Before OBS has gone live once, a configuration that asks to wait for it
/// never shows the waiting video.
pub proof fn lemma_no_waiting_video_before_the_first_show(
    dests_empty: bool,
    standby_enabled: bool,
    video_found: bool,
)
    ensures
        !standby_wanted(dests_empty, standby_enabled, true, false, video_found),
{
}

/// The state a stopped-but-not-yet-gone pusher reports.
pub fn stop_state(has_pid: bool) -> (r: String)
    ensures
        r@ == (if has_pid {
            "stopping"@
        } else {
            "stopped"@
        }),
{
    if has_pid {
        "stopping".to_string()
    } else {
        "stopped".to_string()
    }
}

/// The byte total in an ffmpeg `-progress` line `total_size=N`.
pub open spec fn progress_total_spec(line: Seq<char>) -> Option<u64> {
    if starts_with(line, "total_size="@) {
        parse_u64_spec(trim(line.subrange(11, line.len() as int)))
    } else {
        None
    }
}

pub fn progress_total(line: &str) -> (r: Option<u64>)
    ensures
        r == progress_total_spec(line@),
{
    proof {
        reveal_strlit("total_size=");
    }
    if !crate::text::str_starts_with(line, "total_size=") {
        return None;
    }
    let v = chars_of(line);
    let rest = vec_range(&v, 11, v.len());
    let (lo, hi) = trim_bounds(&rest, None);
    let t = vec_range(&rest, lo, hi);
    parse_u64(&t)
}

/// Each destination's share of an encode's output (one encode can feed several).
pub fn share_per_destination(total: u64, destinations: usize) -> (r: u64)
    ensures
        r == total / (if destinations == 0 {
            1
        } else {
            destinations as int
        }) as u64,
{
    let n: u64 = if destinations == 0 {
        1
    } else {
        destinations as u64
    };
    total / n
}

/// The first wait before restarting a failed pusher.
pub const INITIAL_BACKOFF_MS: u64 = 1000;

/// After the first generation, new pushers wait this long for the old
/// connections to clear before starting.
pub fn settle_delay_ms(epoch: u64) -> (r: u64)
    ensures
        r == (if epoch > 1 {
            800u64
        } else {
            0u64
        }),
{
    if epoch > 1 {
        800
    } else {
        0
    }
}

/// How many times the supervisor polls for the old pushers to be gone.
pub const REAP_ROUNDS: u32 = 40;

/// The poll round at which lingering pushers are killed outright.
pub const FORCE_KILL_ROUND: u32 = 8;

/// One poll while waiting for the previous pushers to exit.
#[derive(Clone, Copy, Debug, PartialEq, Eq, Structural)]
pub enum ReapStep {
    /// None is left.
    Done,
    /// Kill the remaining process groups, then wait a little.
    KillAndWait,
    /// Wait a little and look again.
    Wait,
}

pub fn reap_step(round: u32, live: u64) -> (r: ReapStep)
    ensures
        r == (if live == 0 {
            ReapStep::Done
        } else if round == FORCE_KILL_ROUND {
            ReapStep::KillAndWait
        } else {
            ReapStep::Wait
        }),
{
    if live == 0 {
        ReapStep::Done
    } else if round == FORCE_KILL_ROUND {
        ReapStep::KillAndWait
    } else {
        ReapStep::Wait
    }
}

/// How long live pushers wait for the first real keyframe of a new session.
pub const MEDIA_WAIT_MS: u64 = 3000;

/// One poll while live pushers wait for ingest media.
#[derive(Clone, Copy, Debug, PartialEq, Eq, Structural)]
pub enum MediaWait {
    /// OBS stopped publishing: stop waiting.
    Abandon,
    /// A keyframe arrived: let a few more frames in, then start.
    SettleThenStart,
    /// Nothing yet: look again shortly.
    Poll,
}

pub fn media_wait_step(publishing: bool, keyframes: u64) -> (r: MediaWait)
    ensures
        r == (if !publishing {
            MediaWait::Abandon
        } else if keyframes >= 1 {
            MediaWait::SettleThenStart
        } else {
            MediaWait::Poll
        }),
{
    if !publishing {
        MediaWait::Abandon
    } else if keyframes >= 1 {
        MediaWait::SettleThenStart
    } else {
        MediaWait::Poll
    }
}

/// Where a restart of the pushers stands.
#[derive(Clone, Copy, Debug, PartialEq, Eq, Structural)]
pub enum RestartState {
    /// The old pushers were told to stop; the destinations are read next.
    Stopping,
    /// Waiting for the old pushers to be gone (and, live, for ingest media).
    Waiting,
    /// Letting the old connections clear.
    Settling,
    /// Looking up the waiting video and audio bed.
    Resolving,
    /// Nothing more to do.
    Done,
}

/// What the supervisor learned since the last step of a restart.
#[derive(Clone, Copy, Debug, PartialEq, Eq, Structural)]
pub enum RestartEvent {
    /// The destinations were read: this many.
    DestinationsRead { count: usize },
    /// The wait for the old pushers ended; `alive` tells whether this
    /// restart is still the current one for the current mode.
    PreviousGone { alive: bool },
    /// The settle pause ended; `alive` as above.
    SettleOver { alive: bool },
    /// The waiting video was looked up.
    VideoResolved { found: bool },
}

/// What the supervisor does next in a restart.
#[derive(Clone, Copy, Debug, PartialEq, Eq, Structural)]
pub enum RestartAction {
    /// No destination: wait for the old pushers, mark the waiting video off, stop.
    NoDestinations,
    /// Wait for the old pushers to be gone, and for ingest media too when live.
    WaitPrevious { and_media: bool },
    /// Pause this many milliseconds.
    Settle { ms: u64 },
    /// Look up the waiting video and audio bed.
    Resolve,
    /// Start the pushers: one task for the waiting video to all destinations
    /// (`standby`), else one task per destination.
    Start { standby: bool },
    /// A newer restart or a mode change took over: stop here.
    Superseded,
    /// The waiting video is gone: stop here.
    VideoMissing,
}

/// One step of a restart of pushers of `mode` in generation `epoch`: the next
/// state and what to do. An event that does not belong to the state ends the
/// restart as superseded.
pub open spec fn restart_next(
    state: RestartState,
    event: RestartEvent,
    mode: PushMode,
    epoch: u64,
) -> (RestartState, RestartAction) {
    match (state, event) {
        (RestartState::Stopping, RestartEvent::DestinationsRead { count }) => if count == 0 {
            (RestartState::Done, RestartAction::NoDestinations)
        } else {
            (RestartState::Waiting, RestartAction::WaitPrevious { and_media: mode == PushMode::Live })
        },
        (RestartState::Waiting, RestartEvent::PreviousGone { alive }) => if !alive {
            (RestartState::Done, RestartAction::Superseded)
        } else if epoch > 1 {
            (RestartState::Settling, RestartAction::Settle { ms: 800 })
        } else {
            (RestartState::Resolving, RestartAction::Resolve)
        },
        (RestartState::Settling, RestartEvent::SettleOver { alive }) => if !alive {
            (RestartState::Done, RestartAction::Superseded)
        } else {
            (RestartState::Resolving, RestartAction::Resolve)
        },
        (RestartState::Resolving, RestartEvent::VideoResolved { found }) => if mode
            == PushMode::Standby && !found {
            (RestartState::Done, RestartAction::VideoMissing)
        } else {
            (RestartState::Done, RestartAction::Start { standby: mode == PushMode::Standby })
        },
        _ => (RestartState::Done, RestartAction::Superseded),
    }
}

/// Decide the next step of a restart.
pub fn restart_step(state: RestartState, event: RestartEvent, mode: PushMode, epoch: u64) -> (r: (
    RestartState,
    RestartAction,
))
    ensures
        r == restart_next(state, event, mode, epoch),
{
    match (state, event) {
        (RestartState::Stopping, RestartEvent::DestinationsRead { count }) => {
            if count == 0 {
                (RestartState::Done, RestartAction::NoDestinations)
            } else {
                let live = match mode {
                    PushMode::Live => true,
                    PushMode::Standby => false,
                };
                (RestartState::Waiting, RestartAction::WaitPrevious { and_media: live })
            }
        },
        (RestartState::Waiting, RestartEvent::PreviousGone { alive }) => {
            if !alive {
                (RestartState::Done, RestartAction::Superseded)
            } else {
                let settle = settle_delay_ms(epoch);
                if settle > 0 {
                    (RestartState::Settling, RestartAction::Settle { ms: settle })
                } else {
                    (RestartState::Resolving, RestartAction::Resolve)
                }
            }
        },
        (RestartState::Settling, RestartEvent::SettleOver { alive }) => {
            if !alive {
                (RestartState::Done, RestartAction::Superseded)
            } else {
                (RestartState::Resolving, RestartAction::Resolve)
            }
        },
        (RestartState::Resolving, RestartEvent::VideoResolved { found }) => {
            let standby = match mode {
                PushMode::Live => false,
                PushMode::Standby => true,
            };
            if standby && !found {
                (RestartState::Done, RestartAction::VideoMissing)
            } else {
                (RestartState::Done, RestartAction::Start { standby })
            }
        },
        _ => (RestartState::Done, RestartAction::Superseded),
    }
}

/// The actions a run of events brings about, from `state` on; the run stops
/// at `Done`.
pub open spec fn restart_run(
    state: RestartState,
    events: Seq<RestartEvent>,
    mode: PushMode,
    epoch: u64,
) -> Seq<RestartAction>
    decreases events.len(),
{
    if events.len() == 0 || state == RestartState::Done {
        Seq::<RestartAction>::empty()
    } else {
        let (next, act) = restart_next(state, events[0], mode, epoch);
        seq![act] + restart_run(next, events.drop_first(), mode, epoch)
    }
}

/// Each step of a restart, spelled out. After the stop, no destination ends
/// the restart; otherwise the supervisor waits for the old pushers, and for
/// ingest media as well when live. Once they are gone a superseded restart
/// ends; the first generation goes straight to looking up files, later ones
/// first pause 800 ms and look again whether they are still current. The
/// waiting video must be found to start the waiting video; live pushers start
/// regardless. Any event out of turn ends the restart as superseded.
pub proof fn lemma_restart_steps(event: RestartEvent, mode: PushMode, epoch: u64)
    ensures
        event matches RestartEvent::DestinationsRead { count } ==> restart_next(
            RestartState::Stopping,
            event,
            mode,
            epoch,
        ) == (if count == 0 {
            (RestartState::Done, RestartAction::NoDestinations)
        } else {
            (RestartState::Waiting, RestartAction::WaitPrevious { and_media: mode == PushMode::Live })
        }),
        event matches RestartEvent::PreviousGone { alive } ==> restart_next(
            RestartState::Waiting,
            event,
            mode,
            epoch,
        ) == (if !alive {
            (RestartState::Done, RestartAction::Superseded)
        } else if epoch >= 2 {
            (RestartState::Settling, RestartAction::Settle { ms: 800 })
        } else {
            (RestartState::Resolving, RestartAction::Resolve)
        }),
        event matches RestartEvent::SettleOver { alive } ==> restart_next(
            RestartState::Settling,
            event,
            mode,
            epoch,
        ) == (if alive {
            (RestartState::Resolving, RestartAction::Resolve)
        } else {
            (RestartState::Done, RestartAction::Superseded)
        }),
        event matches RestartEvent::VideoResolved { found } ==> restart_next(
            RestartState::Resolving,
            event,
            mode,
            epoch,
        ) == (if mode == PushMode::Standby && !found {
            (RestartState::Done, RestartAction::VideoMissing)
        } else {
            (RestartState::Done, RestartAction::Start { standby: mode == PushMode::Standby })
        }),
        !(event is DestinationsRead) ==> restart_next(RestartState::Stopping, event, mode, epoch) == (
        RestartState::Done, RestartAction::Superseded),
        !(event is PreviousGone) ==> restart_next(RestartState::Waiting, event, mode, epoch) == (
        RestartState::Done, RestartAction::Superseded),
        !(event is SettleOver) ==> restart_next(RestartState::Settling, event, mode, epoch) == (
        RestartState::Done, RestartAction::Superseded),
        !(event is VideoResolved) ==> restart_next(RestartState::Resolving, event, mode, epoch) == (
        RestartState::Done, RestartAction::Superseded),
        restart_next(RestartState::Done, event, mode, epoch) == (RestartState::Done, RestartAction::Superseded),
{
}

/// A restart starts pushers at most once, as its last action, and only after
/// reading at least one destination, seeing the restart still current once
/// the old pushers were gone (and again after the settle pause, which every
/// generation after the first takes), and, for the waiting video, finding it.
/// Live pushers wait for ingest media first; the waiting video does not.
pub proof fn lemma_restart_starts_only_when_ready(
    events: Seq<RestartEvent>,
    mode: PushMode,
    epoch: u64,
    i: int,
)
    requires
        0 <= i < restart_run(RestartState::Stopping, events, mode, epoch).len(),
        restart_run(RestartState::Stopping, events, mode, epoch)[i] is Start,
    ensures
        i == restart_run(RestartState::Stopping, events, mode, epoch).len() - 1,
        events[0] matches RestartEvent::DestinationsRead { count } && count > 0,
        restart_run(RestartState::Stopping, events, mode, epoch)[0] == (RestartAction::WaitPrevious {
            and_media: mode == PushMode::Live,
        }),
        events[1] == (RestartEvent::PreviousGone { alive: true }),
        epoch > 1 ==> i == 3 && events[2] == (RestartEvent::SettleOver { alive: true }),
        epoch <= 1 ==> i == 2,
        mode == PushMode::Standby ==> events[i] == (RestartEvent::VideoResolved { found: true }),
        restart_run(RestartState::Stopping, events, mode, epoch)[i] == (RestartAction::Start {
            standby: mode == PushMode::Standby,
        }),
{
    let r = restart_run(RestartState::Stopping, events, mode, epoch);
    let e1 = events.drop_first();
    let e2 = e1.drop_first();
    let e3 = e2.drop_first();
    let e4 = e3.drop_first();
    assert(events.len() > 0);
    let (s1, a1) = restart_next(RestartState::Stopping, events[0], mode, epoch);
    assert(r == seq![a1] + restart_run(s1, e1, mode, epoch));
    if s1 == RestartState::Done {
        assert(restart_run(s1, e1, mode, epoch) == Seq::<RestartAction>::empty());
        assert(r =~= seq![a1]);
        assert(false);
    }
    assert(s1 == RestartState::Waiting);
    assert(e1.len() > 0);
    let (s2, a2) = restart_next(s1, e1[0], mode, epoch);
    assert(restart_run(s1, e1, mode, epoch) == seq![a2] + restart_run(s2, e2, mode, epoch));
    if s2 == RestartState::Done {
        assert(restart_run(s2, e2, mode, epoch) == Seq::<RestartAction>::empty());
        assert(r =~= seq![a1, a2]);
        assert(false);
    }
    assert(e2.len() > 0);
    let (s3, a3) = restart_next(s2, e2[0], mode, epoch);
    assert(restart_run(s2, e2, mode, epoch) == seq![a3] + restart_run(s3, e3, mode, epoch));
    assert(events[1] == e1[0]);
    assert(events[2] == e2[0]);
    if s2 == RestartState::Resolving {
        assert(s3 == RestartState::Done);
        assert(restart_run(s3, e3, mode, epoch) == Seq::<RestartAction>::empty());
        assert(r =~= seq![a1, a2, a3]);
    } else {
        assert(s2 == RestartState::Settling);
        if s3 == RestartState::Done {
            assert(restart_run(s3, e3, mode, epoch) == Seq::<RestartAction>::empty());
            assert(r =~= seq![a1, a2, a3]);
            assert(false);
        }
        assert(e3.len() > 0);
        let (s4, a4) = restart_next(s3, e3[0], mode, epoch);
        assert(events[3] == e3[0]);
        assert(s4 == RestartState::Done);
        assert(restart_run(s3, e3, mode, epoch) == seq![a4] + restart_run(s4, e4, mode, epoch));
        assert(restart_run(s4, e4, mode, epoch) == Seq::<RestartAction>::empty());
        assert(r =~= seq![a1, a2, a3, a4]);
    }
}

/// What the status report shows of one pusher, apart from its rates.
#[derive(Debug, Clone)]
pub struct PusherRecord {
    pub name: String,
    pub url_masked: String,
    pub state: String,
    pub pid: Option<u32>,
    pub restarts: u32,
    pub last_error: Option<String>,
    pub bytes_out: u64,
}

/// A record as plain values: name, masked URL, state, pid, restarts, last error, bytes out.
pub type RecordView = (Seq<char>, Seq<char>, Seq<char>, Option<u32>, u32, Option<Seq<char>>, u64);

pub open spec fn record_view(r: PusherRecord) -> RecordView {
    (r.name@, r.url_masked@, r.state@, r.pid, r.restarts, opt_view(r.last_error), r.bytes_out)
}

pub open spec fn record_views(v: Seq<PusherRecord>) -> Seq<RecordView> {
    v.map_values(|r: PusherRecord| record_view(r))
}

/// The record of a pusher about to start for a destination.
pub open spec fn starting_view(name: Seq<char>, url: Seq<char>) -> RecordView {
    (name, masked_url(url), "starting"@, None, 0, None, 0)
}

/// One record per destination, each about to start, in the destinations' order.
pub fn starting_records(dests: &Vec<Destination>) -> (r: Vec<PusherRecord>)
    ensures
        record_views(r@) == dests@.map_values(
            |d: Destination| starting_view(d.name@, d.url@),
        ),
{
    let mut out: Vec<PusherRecord> = Vec::new();
    let mut i: usize = 0;
    while i < dests.len()
        invariant
            i <= dests.len(),
            record_views(out@) == dests@.subrange(0, i as int).map_values(
                |d: Destination| starting_view(d.name@, d.url@),
            ),
        decreases dests.len() - i,
    {
        let d = &dests[i];
        let rec = PusherRecord {
            name: d.name.clone(),
            url_masked: redact_url(d.url.as_str()),
            state: "starting".to_string(),
            pid: None,
            restarts: 0,
            last_error: None,
            bytes_out: 0,
        };
        let ghost before = record_views(out@);
        out.push(rec);
        assert(record_views(out@) =~= before.push(record_view(rec)));
        assert(dests@.subrange(0, i + 1) =~= dests@.subrange(0, i as int).push(dests@[i as int]));
        i = i + 1;
    }
    assert(dests@.subrange(0, i as int) =~= dests@);
    out
}

/// A record once its pusher was told to stop: "stopping" while a process is
/// still attached, "stopped" otherwise.
pub open spec fn stopping_view(v: RecordView) -> RecordView {
    (v.0, v.1, if v.3 is Some { "stopping"@ } else { "stopped"@ }, v.3, v.4, v.5, v.6)
}

/// Mark every pusher as stopping (or stopped, when no process is attached).
pub fn stop_all(list: &mut Vec<PusherRecord>)
    ensures
        record_views(final(list)@) == record_views(old(list)@).map_values(|v: RecordView| stopping_view(v)),
{
    let ghost start = record_views(list@);
    let mut i: usize = 0;
    while i < list.len()
        invariant
            i <= list.len(),
            list.len() == start.len(),
            forall|j: int| 0 <= j < i ==> record_view(#[trigger] list@[j]) == stopping_view(start[j]),
            forall|j: int| i <= j < list.len() ==> record_view(#[trigger] list@[j]) == start[j],
        decreases list.len() - i,
    {
        let state = stop_state(list[i].pid.is_some());
        let updated = PusherRecord {
            name: list[i].name.clone(),
            url_masked: list[i].url_masked.clone(),
            state,
            pid: list[i].pid,
            restarts: list[i].restarts,
            last_error: list[i].last_error.clone(),
            bytes_out: list[i].bytes_out,
        };
        list.set(i, updated);
        i = i + 1;
    }
    assert(record_views(list@) =~= start.map_values(|v: RecordView| stopping_view(v)));
}

/// What happened to a pusher.
#[derive(Debug, Clone)]
pub enum PusherEvent {
    /// Its ffmpeg started, in `mode`, with process id `pid`.
    Connected { mode: PushMode, pid: Option<u32> },
    /// Its ffmpeg exited with `status` and will be restarted.
    Exited { status: String },
    /// The shared waiting-video encode exited and will be restarted.
    EncodeExited,
    /// Its ffmpeg could not be started.
    SpawnFailed { error: String },
    /// It is done for this generation.
    Stopped,
}

/// A record after an event.
pub open spec fn event_view(v: RecordView, ev: PusherEvent) -> RecordView {
    match ev {
        PusherEvent::Connected { mode, pid } => (v.0, v.1, mode_label(mode), pid, v.4, None, v.6),
        PusherEvent::Exited { status } => (
            v.0,
            v.1,
            "restarting"@,
            None,
            (v.4 + 1) as u32,
            Some("exited "@ + status@),
            v.6,
        ),
        PusherEvent::EncodeExited => (v.0, v.1, "restarting"@, None, (v.4 + 1) as u32, v.5, v.6),
        PusherEvent::SpawnFailed { error } => (
            v.0,
            v.1,
            "error"@,
            v.3,
            (v.4 + 1) as u32,
            Some(error@),
            v.6,
        ),
        PusherEvent::Stopped => (v.0, v.1, "stopped"@, None, v.4, v.5, v.6),
    }
}

/// Whether an event counts as a restart.
pub open spec fn is_restart(ev: PusherEvent) -> bool {
    ev is Exited || ev is EncodeExited || ev is SpawnFailed
}

/// The index of the first record named `name`.
pub open spec fn first_named(v: Seq<RecordView>, name: Seq<char>) -> Option<int>
    decreases v.len(),
{
    if v.len() == 0 {
        None
    } else if v[0].0 == name {
        Some(0)
    } else {
        match first_named(v.drop_first(), name) {
            Some(i) => Some(i + 1),
            None => None,
        }
    }
}

proof fn lemma_first_named(v: Seq<RecordView>, name: Seq<char>)
    ensures
        match first_named(v, name) {
            Some(i) => 0 <= i < v.len() && v[i].0 == name && forall|j: int|
                0 <= j < i ==> #[trigger] v[j].0 != name,
            None => forall|j: int| 0 <= j < v.len() ==> #[trigger] v[j].0 != name,
        },
    decreases v.len(),
{
    if v.len() > 0 && v[0].0 != name {
        lemma_first_named(v.drop_first(), name);
        assert forall|j: int| 0 < j < v.len() implies #[trigger] v[j] == v.drop_first()[j - 1] by {}
    }
}

/// The records after `ev` happened to the pusher named `name`: the first
/// record with that name changes, the others stay.
pub open spec fn after_event(v: Seq<RecordView>, name: Seq<char>, ev: PusherEvent) -> Seq<RecordView> {
    match first_named(v, name) {
        Some(i) => v.update(i, event_view(v[i], ev)),
        None => v,
    }
}

/// What each event does to the first record with the pusher's name, stated
/// field by field; every other record, and that record's name, masked URL
/// and byte count, stay as they were.
/// - started: shows `running` (live) or `standby`, takes the new process id,
///   keeps its restart count, and clears the last error;
/// - its ffmpeg exited: shows `restarting`, has no process, counts one more
///   restart, and keeps `exited <status>` as the last error;
/// - the shared encode exited: shows `restarting`, has no process, counts
///   one more restart, and keeps its last error;
/// - could not be started: shows `error`, keeps its process id, counts one
///   more restart, and keeps the spawn error as the last error;
/// - stopped: shows `stopped`, has no process, and keeps its restart count
///   and last error.
pub proof fn lemma_event_effects(v: Seq<RecordView>, name: Seq<char>, ev: PusherEvent, i: int)
    requires
        0 <= i < v.len(),
        v[i].0 == name,
        forall|j: int| 0 <= j < i ==> v[j].0 != name,
        is_restart(ev) ==> v[i].4 < u32::MAX,
    ensures
        ({
            let w = after_event(v, name, ev);
            &&& w.len() == v.len()
            &&& forall|j: int| 0 <= j < v.len() && j != i ==> w[j] == v[j]
            &&& w[i].0 == v[i].0 && w[i].1 == v[i].1 && w[i].6 == v[i].6
            &&& match ev {
                PusherEvent::Connected { mode, pid } => {
                    &&& w[i].2 == (if mode == PushMode::Live {
                        "running"@
                    } else {
                        "standby"@
                    })
                    &&& w[i].3 == pid
                    &&& w[i].4 == v[i].4
                    &&& w[i].5 is None
                },
                PusherEvent::Exited { status } => {
                    &&& w[i].2 == "restarting"@
                    &&& w[i].3 is None
                    &&& w[i].4 == v[i].4 + 1
                    &&& w[i].5 == Some("exited "@ + status@)
                },
                PusherEvent::EncodeExited => {
                    &&& w[i].2 == "restarting"@
                    &&& w[i].3 is None
                    &&& w[i].4 == v[i].4 + 1
                    &&& w[i].5 == v[i].5
                },
                PusherEvent::SpawnFailed { error } => {
                    &&& w[i].2 == "error"@
                    &&& w[i].3 == v[i].3
                    &&& w[i].4 == v[i].4 + 1
                    &&& w[i].5 == Some(error@)
                },
                PusherEvent::Stopped => {
                    &&& w[i].2 == "stopped"@
                    &&& w[i].3 is None
                    &&& w[i].4 == v[i].4
                    &&& w[i].5 == v[i].5
                },
            }
        }),
{
    lemma_first_named(v, name);
    match first_named(v, name) {
        Some(k) => {
            if k < i {
                assert(v[k].0 != name);
            } else if k > i {
                assert(v[i].0 != name);
            }
        },
        None => {
            assert(v[i].0 != name);
        },
    }
}

/// An event for a name that no record has changes nothing.
pub proof fn lemma_event_for_unknown_name(v: Seq<RecordView>, name: Seq<char>, ev: PusherEvent)
    requires
        forall|j: int| 0 <= j < v.len() ==> v[j].0 != name,
    ensures
        after_event(v, name, ev) == v,
{
    lemma_first_named(v, name);
    if let Some(k) = first_named(v, name) {
        assert(v[k].0 != name);
    }
}

fn apply_to(rec: &PusherRecord, ev: &PusherEvent) -> (r: PusherRecord)
    requires
        is_restart(*ev) ==> rec.restarts < u32::MAX,
    ensures
        record_view(r) == event_view(record_view(*rec), *ev),
{
    let (state, pid, restarts, last_error): (String, Option<u32>, u32, Option<String>) = match ev {
        PusherEvent::Connected { mode, pid } => (mode.label(), *pid, rec.restarts, None),
        PusherEvent::Exited { status } => {
            let mut e = "exited ".to_string();
            e.append(status.as_str());
            ("restarting".to_string(), None, rec.restarts + 1, Some(e))
        },
        PusherEvent::EncodeExited => (
            "restarting".to_string(),
            None,
            rec.restarts + 1,
            rec.last_error.clone(),
        ),
        PusherEvent::SpawnFailed { error } => (
            "error".to_string(),
            rec.pid,
            rec.restarts + 1,
            Some(error.clone()),
        ),
        PusherEvent::Stopped => ("stopped".to_string(), None, rec.restarts, rec.last_error.clone()),
    };
    PusherRecord {
        name: rec.name.clone(),
        url_masked: rec.url_masked.clone(),
        state,
        pid,
        restarts,
        last_error,
        bytes_out: rec.bytes_out,
    }
}

/// Record that `ev` happened to the pusher named `name`. A restart is
/// counted in a `u32`, so the record must have room for one more.
pub fn apply_event(list: &mut Vec<PusherRecord>, name: &str, ev: &PusherEvent)
    requires
        is_restart(*ev) ==> forall|j: int|
            0 <= j < old(list).len() && (#[trigger] old(list)@[j]).name@ == name@ ==> old(list)@[j].restarts
                < u32::MAX,
    ensures
        record_views(final(list)@) == after_event(record_views(old(list)@), name@, *ev),
{
    let ghost start = record_views(list@);
    proof {
        lemma_first_named(start, name@);
    }
    let mut i: usize = 0;
    while i < list.len()
        invariant
            i <= list.len(),
            start == record_views(list@),
            start == record_views(old(list)@),
            forall|j: int| 0 <= j < i ==> (#[trigger] start[j]).0 != name@,
            is_restart(*ev) ==> forall|j: int|
                0 <= j < list.len() && (#[trigger] list@[j]).name@ == name@ ==> list@[j].restarts
                    < u32::MAX,
        decreases list.len() - i,
    {
        assert(start[i as int] == record_view(list@[i as int]));
        if str_eq(list[i].name.as_str(), name) {
            let r = apply_to(&list[i], ev);
            let ghost k = first_named(start, name@);
            proof {
                lemma_first_named(start, name@);
                match k {
                    Some(k) => {
                        if k < i {
                            assert(start[k].0 != name@);
                        } else if k > i {
                            assert(start[i as int].0 != name@);
                        }
                    },
                    None => {
                        assert(start[i as int].0 != name@);
                    },
                }
            }
            assert(first_named(start, name@) == Some(i as int));
            list.set(i, r);
            assert(record_views(list@) =~= start.update(i as int, event_view(start[i as int], *ev)));
            return;
        }
        i = i + 1;
    }
    proof {
        lemma_first_named(start, name@);
        match first_named(start, name@) {
            Some(k) => {
                assert(start[k].0 != name@);
            },
            None => {},
        }
    }
}

/// An event touches only the first record with its pusher's name, and the
/// restart count of no record ever goes down.
pub proof fn lemma_event_is_local(v: Seq<RecordView>, name: Seq<char>, ev: PusherEvent)
    requires
        is_restart(ev) ==> forall|j: int| 0 <= j < v.len() && (#[trigger] v[j]).0 == name ==> v[j].4 < u32::MAX,
    ensures
        after_event(v, name, ev).len() == v.len(),
        forall|j: int|
            0 <= j < v.len() && (#[trigger] v[j]).0 != name ==> after_event(v, name, ev)[j] == v[j],
        forall|j: int| 0 <= j < v.len() ==> (#[trigger] after_event(v, name, ev)[j]).4 >= v[j].4,
        forall|j: int| 0 <= j < v.len() ==> (#[trigger] after_event(v, name, ev)[j]).0 == v[j].0,
{
    lemma_first_named(v, name);
}

/// Where pushers go: the configured destinations, then the ad-hoc ones in
/// the order they were added.
pub fn all_destinations(cfg: &Config, adhoc: &Vec<Destination>) -> (r: Vec<Destination>)
    ensures
        destination_views(r@) == cfg.destinations() + destination_views(adhoc@),
{
    let mut out = cfg.configured_destinations();
    let ghost start = destination_views(out@);
    let mut i: usize = 0;
    while i < adhoc.len()
        invariant
            i <= adhoc.len(),
            destination_views(out@) == start + destination_views(adhoc@).subrange(0, i as int),
        decreases adhoc.len() - i,
    {
        let d = Destination { name: adhoc[i].name.clone(), url: adhoc[i].url.clone() };
        let ghost before = destination_views(out@);
        out.push(d);
        assert(destination_views(out@) =~= before.push((d.name@, d.url@)));
        assert(destination_views(adhoc@).subrange(0, i + 1) =~= destination_views(adhoc@).subrange(
            0,
            i as int,
        ).push(destination_views(adhoc@)[i as int]));
        i = i + 1;
    }
    assert(destination_views(adhoc@).subrange(0, i as int) =~= destination_views(adhoc@));
    out
}

} // verus!
