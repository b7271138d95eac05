use echochamber::pusher::{restart_step, RestartAction, RestartEvent, RestartState};
use echochamber::config::{Config, Destination, XPlatform};
use echochamber::pusher::{
    all_destinations, apply_event, idle_plan, keep_running, media_wait_step, next_backoff_ms, progress_total,
    reap_step, settle_delay_ms, share_per_destination, sidecar_paths, starting_records, stop_all,
    stop_state, IdlePlan, MediaWait, PushMode, PusherEvent, ReapStep, INITIAL_BACKOFF_MS,
};

fn dests() -> Vec<Destination> {
    vec![
        Destination { name: "youtube".into(), url: "rtmp://a.rtmp.youtube.com/live2/abcdefgh".into() },
        Destination { name: "x".into(), url: "rtmp://va.pscp.tv:80/x/zz".into() },
    ]
}

#[test]
fn one_kind_of_pusher_is_on_air() {
    for publishing in [false, true] {
        assert_ne!(
            PushMode::Live.should_run(publishing),
            PushMode::Standby.should_run(publishing)
        );
    }
    assert_eq!(PushMode::Live.label(), "running");
    assert_eq!(PushMode::Standby.label(), "standby");
    assert!(keep_running(3, 3, PushMode::Live, true));
    assert!(!keep_running(4, 3, PushMode::Live, true));
    assert!(!keep_running(3, 3, PushMode::Standby, true));
}

#[test]
fn backoff_doubles_up_to_thirty_seconds() {
    let mut b = INITIAL_BACKOFF_MS;
    let mut seen = vec![];
    for _ in 0..7 {
        seen.push(b);
        b = next_backoff_ms(b);
    }
    assert_eq!(seen, vec![1_000, 2_000, 4_000, 8_000, 16_000, 30_000, 30_000]);
}

#[test]
fn idle_plan_needs_everything_for_the_waiting_video() {
    assert_eq!(idle_plan(false, true, true, true, true), IdlePlan::Standby);
    assert_eq!(idle_plan(true, true, false, false, true), IdlePlan::Quiet);
    assert_eq!(idle_plan(false, false, false, false, true), IdlePlan::Quiet);
    assert_eq!(idle_plan(false, true, true, false, true), IdlePlan::Quiet);
    assert_eq!(idle_plan(false, true, false, false, true), IdlePlan::Standby);
    assert_eq!(idle_plan(false, true, false, false, false), IdlePlan::Quiet);
}

#[test]
fn progress_lines_share_the_total() {
    assert_eq!(progress_total("total_size=12345"), Some(12345));
    assert_eq!(progress_total("total_size= 77 "), Some(77));
    assert_eq!(progress_total("total_size=N/A"), None);
    assert_eq!(progress_total("out_time=00:00:01"), None);
    assert_eq!(share_per_destination(1000, 3), 333);
    assert_eq!(share_per_destination(1000, 0), 1000);
}

#[test]
fn polling_steps_and_delays() {
    assert_eq!(settle_delay_ms(1), 0);
    assert_eq!(settle_delay_ms(2), 800);
    assert_eq!(reap_step(0, 0), ReapStep::Done);
    assert_eq!(reap_step(8, 2), ReapStep::KillAndWait);
    assert_eq!(reap_step(9, 2), ReapStep::Wait);
    assert_eq!(media_wait_step(false, 5), MediaWait::Abandon);
    assert_eq!(media_wait_step(true, 1), MediaWait::SettleThenStart);
    assert_eq!(media_wait_step(true, 0), MediaWait::Poll);
    assert_eq!(stop_state(true), "stopping");
    assert_eq!(stop_state(false), "stopped");
    let (srt, ass) = sidecar_paths();
    assert_eq!(srt, "echochamber_live.srt");
    assert_eq!(ass, "echochamber_live.ass");
}

#[test]
fn records_follow_their_pushers() {
    let mut list = starting_records(&dests());
    assert_eq!(list.len(), 2);
    assert_eq!(list[0].url_masked, "rtmp://a.rtmp.youtube.com/live2/***efgh");
    assert_eq!(list[0].state, "starting");
    apply_event(&mut list, "x", &PusherEvent::Connected { mode: PushMode::Live, pid: Some(42) });
    assert_eq!(list[1].state, "running");
    assert_eq!(list[1].pid, Some(42));
    assert_eq!(list[0].state, "starting");
    apply_event(&mut list, "x", &PusherEvent::Exited { status: "exit status: 1".into() });
    assert_eq!(list[1].state, "restarting");
    assert_eq!(list[1].restarts, 1);
    assert_eq!(list[1].pid, None);
    assert_eq!(list[1].last_error.as_deref(), Some("exited exit status: 1"));
    apply_event(&mut list, "youtube", &PusherEvent::SpawnFailed { error: "no ffmpeg".into() });
    assert_eq!(list[0].state, "error");
    assert_eq!(list[0].restarts, 1);
    apply_event(&mut list, "nobody", &PusherEvent::Stopped);
    assert_eq!(list[0].state, "error");
    apply_event(&mut list, "x", &PusherEvent::Connected { mode: PushMode::Standby, pid: Some(7) });
    assert_eq!(list[1].state, "standby");
    assert_eq!(list[1].last_error, None);
    stop_all(&mut list);
    assert_eq!(list[0].state, "stopped");
    assert_eq!(list[1].state, "stopping");
    apply_event(&mut list, "x", &PusherEvent::Stopped);
    assert_eq!(list[1].state, "stopped");
    assert_eq!(list[1].pid, None);
    apply_event(&mut list, "x", &PusherEvent::EncodeExited);
    assert_eq!(list[1].restarts, 2);
}

#[test]
fn adhoc_destinations_follow_the_configured_ones() {
    let mut cfg = Config::default();
    cfg.platforms.x = Some(XPlatform { enabled: true, stream_key: "k".into(), ingest_base: None });
    let all = all_destinations(&cfg, &dests());
    let names: Vec<&str> = all.iter().map(|d| d.name.as_str()).collect();
    assert_eq!(names, vec!["x", "youtube", "x"]);
    assert_eq!(all[0].url, "rtmp://va.pscp.tv:80/x/k");
    assert!(all_destinations(&Config::default(), &vec![]).is_empty());
}

#[test]
fn restart_steps_follow_the_supervisor() {
    // No destination: stop at once.
    assert_eq!(
        restart_step(RestartState::Stopping, RestartEvent::DestinationsRead { count: 0 }, PushMode::Live, 1),
        (RestartState::Done, RestartAction::NoDestinations)
    );
    // Live waits for media too; the waiting video does not.
    assert_eq!(
        restart_step(RestartState::Stopping, RestartEvent::DestinationsRead { count: 2 }, PushMode::Live, 1),
        (RestartState::Waiting, RestartAction::WaitPrevious { and_media: true })
    );
    assert_eq!(
        restart_step(RestartState::Stopping, RestartEvent::DestinationsRead { count: 2 }, PushMode::Standby, 1),
        (RestartState::Waiting, RestartAction::WaitPrevious { and_media: false })
    );
    // The first generation starts at once, later ones settle first.
    assert_eq!(
        restart_step(RestartState::Waiting, RestartEvent::PreviousGone { alive: true }, PushMode::Live, 1),
        (RestartState::Resolving, RestartAction::Resolve)
    );
    assert_eq!(
        restart_step(RestartState::Waiting, RestartEvent::PreviousGone { alive: true }, PushMode::Live, 2),
        (RestartState::Settling, RestartAction::Settle { ms: 800 })
    );
    assert_eq!(
        restart_step(RestartState::Waiting, RestartEvent::PreviousGone { alive: false }, PushMode::Live, 2),
        (RestartState::Done, RestartAction::Superseded)
    );
    assert_eq!(
        restart_step(RestartState::Settling, RestartEvent::SettleOver { alive: false }, PushMode::Live, 2),
        (RestartState::Done, RestartAction::Superseded)
    );
    assert_eq!(
        restart_step(RestartState::Settling, RestartEvent::SettleOver { alive: true }, PushMode::Live, 2),
        (RestartState::Resolving, RestartAction::Resolve)
    );
    // The waiting video must be there; live pushers do not need it.
    assert_eq!(
        restart_step(RestartState::Resolving, RestartEvent::VideoResolved { found: false }, PushMode::Standby, 3),
        (RestartState::Done, RestartAction::VideoMissing)
    );
    assert_eq!(
        restart_step(RestartState::Resolving, RestartEvent::VideoResolved { found: true }, PushMode::Standby, 3),
        (RestartState::Done, RestartAction::Start { standby: true })
    );
    assert_eq!(
        restart_step(RestartState::Resolving, RestartEvent::VideoResolved { found: false }, PushMode::Live, 3),
        (RestartState::Done, RestartAction::Start { standby: false })
    );
    // An event out of turn ends the restart.
    assert_eq!(
        restart_step(RestartState::Waiting, RestartEvent::VideoResolved { found: true }, PushMode::Live, 3),
        (RestartState::Done, RestartAction::Superseded)
    );
}
