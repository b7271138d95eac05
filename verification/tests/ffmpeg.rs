use echochamber::config::{Config, QualityMode};
use echochamber::ffmpeg::{
    asr_extract_args, build_burn_filter_if_needed, filters_have_burnin, is_rtmp_url, probe_summary,
    rtmp_input_opts, standby_args, standby_tee_args, ProbeOutcome, PusherSpec,
};
use echochamber::state::PublishedStream;

fn has_pair(args: &[String], a: &str, b: &str) -> bool {
    args.windows(2).any(|w| w[0] == a && w[1] == b)
}

#[test]
fn reconnect_flags_are_before_output_not_input() {
    let spec = PusherSpec {
        input: "rtmp://127.0.0.1:1935".into(),
        rtmp_app: "echochamber".into(),
        rtmp_playpath: "live".into(),
        output: "rtmp://a.rtmp.youtube.com/live2/key".into(),
        burn_filter: None,
        mode: QualityMode::Copy,
        preset: "veryfast".into(),
        crf: 23,
    };
    let args = spec.args();
    let i_pos = args.iter().position(|a| a == "-i").unwrap();
    let f_pos = args.iter().position(|a| a == "-f").unwrap();
    assert!(i_pos < f_pos);
    assert!(!args.iter().any(|a| a == "-reconnect"));
    assert_eq!(args[f_pos + 1], "flv");
    assert!(has_pair(&args, "-progress", "pipe:1"));
    assert!(has_pair(&args, "-stats_period", "0.2"));
    assert!(has_pair(&args, "-rtmp_app", "echochamber"));
    assert!(has_pair(&args, "-rtmp_playpath", "live"));
    assert_eq!(args[i_pos + 1], "rtmp://127.0.0.1:1935");
    assert!(has_pair(&args, "-rtmp_tcurl", "rtmp://127.0.0.1:1935/echochamber"));
    assert!(has_pair(&args, "-fflags", "+nobuffer+discardcorrupt"));
    assert!(has_pair(&args, "-analyzeduration", "0"));
    assert!(has_pair(&args, "-muxdelay", "0"));
    let fflags_at = args.iter().position(|a| a == "-fflags").unwrap();
    assert!(fflags_at < i_pos, "nobuffer is an input flag");
    assert_eq!(args[f_pos + 1], "flv");
    assert_eq!(args[f_pos + 2], "-flvflags");
    assert_eq!(args[f_pos + 3], "no_duration_filesize");
    assert_eq!(args.last().unwrap(), &spec.output);
}

#[test]
fn file_output_skips_reconnect() {
    let spec = PusherSpec {
        input: "rtmp://127.0.0.1:1935".into(),
        rtmp_app: "echochamber".into(),
        rtmp_playpath: "live".into(),
        output: "/tmp/out.flv".into(),
        burn_filter: None,
        mode: QualityMode::Copy,
        preset: "veryfast".into(),
        crf: 23,
    };
    let args = spec.args();
    assert!(!args.iter().any(|a| a == "-reconnect"));
}

#[test]
fn burn_filter_is_ass_filename_without_force_style() {
    let path = "echochamber_live.ass";
    let f = build_burn_filter_if_needed(path, true).unwrap();
    assert_eq!(f, "ass=filename=echochamber_live.ass");
    assert!(!f.contains("force_style"));
    assert!(build_burn_filter_if_needed(path, false).is_none());
}

#[test]
fn standby_args_loop_and_scale() {
    let cfg = Config::default();
    let args = standby_args(
        &cfg,
        "assets/standby.mp4",
        Some("assets/standby.m4a"),
        "rtmp://live.twitch.tv/app/key",
    );
    assert!(has_pair(&args, "-stream_loop", "-1"));
    assert!(args.iter().filter(|a| *a == "-re").count() >= 2);
    assert!(args
        .windows(2)
        .any(|w| w[0] == "-vf" && w[1].contains("fast_bilinear")));
    let tee = standby_tee_args(
        &cfg,
        "assets/standby.mp4",
        None,
        &[
            "rtmp://a.example/live/one".into(),
            "rtmp://b.example/live/two".into(),
        ],
    );
    assert!(has_pair(&tee, "-f", "tee"));
    let spec = tee.last().unwrap();
    assert!(spec.contains("onfail=ignore"));
    assert!(spec.contains(r"rtmp\://"));
    assert!(!spec.contains("rtmp://"));
    assert!(has_pair(&args, "-c:v", "libx264"));
    assert!(has_pair(&args, "-c:a", "aac"));
    assert_eq!(args.last().unwrap(), "rtmp://live.twitch.tv/app/key");
    let i_pos = args.iter().position(|a| a == "-i").unwrap();
    assert!(
        !args[..i_pos].iter().any(|a| a == "-c"),
        "encode flags must not precede inputs"
    );
}

#[test]
fn reencode_with_burn_in_uses_the_filter_and_crf() {
    let spec = PusherSpec {
        input: "rtmp://127.0.0.1:1935".into(),
        rtmp_app: "echochamber".into(),
        rtmp_playpath: "live".into(),
        output: "rtmp://a.rtmp.youtube.com/live2/key".into(),
        burn_filter: Some("ass=filename=x.ass".into()),
        mode: QualityMode::Copy,
        preset: "veryfast".into(),
        crf: 23,
    };
    let args = spec.args();
    assert!(has_pair(&args, "-vf", "ass=filename=x.ass"));
    assert!(has_pair(&args, "-crf", "23"));
    assert!(has_pair(&args, "-preset", "veryfast"));
    assert!(!has_pair(&args, "-c", "copy"));
}

#[test]
fn published_stream_names_the_play() {
    let cfg = Config::default();
    let published = PublishedStream {
        app: "echochamber/live".into(),
        stream_key: "live".into(),
    };
    let spec = PusherSpec::from_published(&cfg, "out.flv".into(), "a.ass", Some(&published));
    assert_eq!(spec.rtmp_app, "echochamber/live");
    assert_eq!(spec.rtmp_playpath, "live");
    assert_eq!(spec.input, "rtmp://127.0.0.1:1935");
    let plain = PusherSpec::from_config(&cfg, "out.flv".into(), "a.ass");
    assert_eq!(plain.rtmp_app, "echochamber");
    assert_eq!(plain.burn_filter, None);
}

#[test]
fn rtmp_input_options_name_app_path_and_tcurl() {
    let opts = rtmp_input_opts("rtmp://h:1/", "/app/", "key");
    assert!(has_pair(&opts, "-rtmp_app", "/app/"));
    assert!(has_pair(&opts, "-rtmp_playpath", "key"));
    assert!(has_pair(&opts, "-rtmp_tcurl", "rtmp://h:1/app"));
    assert!(has_pair(&opts, "-i", "rtmp://h:1/"));
    assert!(is_rtmp_url("rtmp://x/y"));
    assert!(is_rtmp_url("rtmps://x/y"));
    assert!(!is_rtmp_url("/tmp/out.flv"));
}

#[test]
fn asr_extract_pulls_mono_audio_for_the_chunk() {
    let cfg = Config::default();
    let args = asr_extract_args(&cfg, None, "/tmp/a.wav", 5);
    assert_eq!(args.last().unwrap(), "/tmp/a.wav");
    assert!(has_pair(&args, "-t", "5"));
    assert!(has_pair(&args, "-ac", "1"));
    assert!(has_pair(&args, "-ar", "16000"));
}

#[test]
fn burn_in_filter_is_found_as_a_column() {
    let listing = " ... ass               V->V       Render ASS subtitles\n T.. subtitles         V->V       Render text subtitles\n";
    assert!(filters_have_burnin(listing));
    assert!(filters_have_burnin("x\tsubtitles\r\n"));
    assert!(!filters_have_burnin(" ... assrender  V->V\n ... bass V->V"));
    assert!(!filters_have_burnin(""));
}

#[test]
fn probe_reports_the_version_line_or_the_failure() {
    let ok = ProbeOutcome::Ran {
        success: true,
        stdout: "ffmpeg version 7.1\nbuilt with clang\n".into(),
        stderr: String::new(),
    };
    assert_eq!(probe_summary("ffmpeg", &ok).unwrap(), "ffmpeg (ffmpeg version 7.1)");
    let silent = ProbeOutcome::Ran { success: true, stdout: String::new(), stderr: String::new() };
    assert_eq!(probe_summary("/opt/ff", &silent).unwrap(), "/opt/ff (ffmpeg)");
    let failed = ProbeOutcome::Ran { success: false, stdout: String::new(), stderr: "boom".into() };
    assert_eq!(probe_summary("ffmpeg", &failed).unwrap_err(), "ffmpeg at ffmpeg failed: boom");
    let missing = ProbeOutcome::NotFound { error: "No such file".into() };
    assert_eq!(
        probe_summary("ffmpeg", &missing).unwrap_err(),
        "ffmpeg not found at ffmpeg: No such file"
    );
}
