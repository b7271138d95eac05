use echochamber::config::{Config, StandbyConfig, SubtitlesConfig, YoutubePlatform};
use echochamber::validate::{masked_ffmpeg_line, model_exists, problems, readiness_report, Findings};

fn youtube(key: &str) -> YoutubePlatform {
    YoutubePlatform {
        enabled: true,
        stream_key: key.into(),
        ingest_base: None,
        client_id: None,
        client_secret: None,
        refresh_token: None,
    }
}

fn nothing_exists(_p: String) -> bool {
    false
}

#[test]
fn empty_key_and_missing_waiting_video_are_problems() {
    let cfg_path = "/srv/relay/config.toml";
    let mut cfg = Config::default();
    cfg.platforms.youtube = Some(youtube("  "));
    cfg.standby = StandbyConfig {
        enabled: true,
        video: "missing.mp4".into(),
        ..StandbyConfig::default()
    };
    cfg.subtitles = SubtitlesConfig {
        enabled: true,
        whisper_model: String::new(),
        ..SubtitlesConfig::default()
    };
    let problems = problems(&cfg, cfg_path, None, &nothing_exists);
    assert!(problems.iter().any(|p| p.contains("youtube is enabled")));
    assert!(problems.iter().any(|p| p.contains("video file was not found")));
    assert!(problems.iter().any(|p| p.contains("whisper_model is empty")));
}

#[test]
fn waiting_video_beside_the_config_is_not_a_problem() {
    let is_file = |p: String| p == "/srv/relay/wait.mp4";
    let cfg_path = "/srv/relay/config.toml";
    let mut cfg = Config::default();
    cfg.standby = StandbyConfig {
        enabled: true,
        video: "wait.mp4".into(),
        audio: String::new(),
        ..StandbyConfig::default()
    };
    assert!(
        problems(&cfg, cfg_path, None, &is_file).is_empty(),
        "{:?}",
        problems(&cfg, cfg_path, None, &is_file)
    );
}

#[test]
fn verbose_command_hides_the_stream_key() {
    let mut cfg = Config::default();
    cfg.platforms.youtube = Some(youtube("super-secret-key"));
    let line = masked_ffmpeg_line(&cfg, &cfg.youtube_publish_url().unwrap(), "ffmpeg");
    assert!(!line.contains("super-secret"));
    assert!(line.contains("***-key"), "{line}");
    assert!(line.starts_with("ffmpeg -hide_banner"));
}

#[test]
fn problems_come_in_order_with_exact_wording() {
    let mut cfg = Config::default();
    cfg.platforms.youtube = Some(youtube(""));
    cfg.standby.enabled = true;
    cfg.standby.video = "gone.mp4".into();
    cfg.subtitles.enabled = true;
    cfg.subtitles.whisper_model = " models/ggml.bin ".into();
    let found = problems(&cfg, "config.toml", Some("/usr/bin/echochamber"), &nothing_exists);
    assert_eq!(
        found,
        vec![
            "youtube is enabled but stream_key is empty".to_string(),
            "standby is enabled but the video file was not found: gone.mp4".to_string(),
            "subtitles are enabled but the whisper model was not found: models/ggml.bin".to_string(),
        ]
    );
}

#[test]
fn model_is_found_beside_the_config() {
    let is_file = |p: String| p == "/etc/relay/ggml.bin";
    assert!(model_exists("/etc/relay/config.toml", "ggml.bin", &is_file));
    assert!(!model_exists("config.toml", "ggml.bin", &is_file));
    assert!(model_exists("x.toml", "/etc/relay/ggml.bin", &is_file));
}

fn findings(probe: Result<String, String>) -> Findings {
    Findings {
        probe,
        burn_in_filter: true,
        ffmpeg_bin: "ffmpeg".into(),
        whisper_bin: "whisper-cli".into(),
        model_found: false,
        video: None,
        audio: None,
    }
}

#[test]
fn report_ends_ready_without_problems() {
    let cfg = Config::default();
    let (lines, verdict) = readiness_report(&cfg, &vec![], &findings(Ok("ffmpeg (v7)".into())), false);
    assert!(verdict.is_ok());
    assert_eq!(lines[0], cfg.masked_summary());
    assert_eq!(lines[1], "");
    assert_eq!(lines[2], "ffmpeg             ffmpeg (v7)");
    assert_eq!(lines[3], "ffmpeg burn-in     yes (ffmpeg)");
    assert_eq!(lines[4], "platforms          none");
    assert_eq!(lines.last().unwrap(), "\nready.");
    assert_eq!(lines.len(), 6);
}

#[test]
fn report_counts_a_failed_probe_as_a_problem() {
    let mut cfg = Config::default();
    cfg.subtitles.burn_in = true;
    cfg.standby.enabled = true;
    let mut f = findings(Err("ffmpeg not found at ffmpeg: gone".into()));
    f.burn_in_filter = false;
    f.video = Some("/a/standby.mp4".into());
    let (lines, verdict) = readiness_report(&cfg, &vec!["first".to_string()], &f, true);
    assert_eq!(verdict.unwrap_err(), "2 problem(s); not ready");
    assert!(lines.contains(&"ffmpeg             ERROR: ffmpeg not found at ffmpeg: gone".to_string()));
    assert!(lines.contains(&"ffmpeg burn-in     NO ass/subtitles filter (ffmpeg)".to_string()));
    assert!(lines.iter().any(|l| l.starts_with("  hint: stock Homebrew ffmpeg")));
    assert!(lines.contains(&"standby video      /a/standby.mp4".to_string()));
    assert!(lines.contains(&"standby audio      MISSING assets/standby.m4a (silence)".to_string()));
    assert!(lines.contains(&"standby encode     1920x1080 @ 30 fps after_first_publish=true".to_string()));
    assert!(lines.contains(&"\nffmpeg commands (stream keys hidden):".to_string()));
    assert!(lines.iter().any(|l| l.starts_with("  mock     ffmpeg ")));
    assert_eq!(lines[lines.len() - 2], "problem: first");
    assert_eq!(lines[lines.len() - 1], "problem: ffmpeg: ffmpeg not found at ffmpeg: gone");
}

#[test]
fn report_lists_each_destination_command() {
    let mut cfg = Config::default();
    cfg.platforms.youtube = Some(youtube("super-secret-key"));
    cfg.subtitles.enabled = true;
    cfg.subtitles.whisper_model = "m.bin".into();
    let mut f = findings(Ok("ffmpeg (v)".into()));
    f.model_found = true;
    let (lines, verdict) = readiness_report(&cfg, &vec![], &f, true);
    assert!(verdict.is_ok());
    assert!(lines.contains(&"whisper-cli        whisper-cli".to_string()));
    assert!(lines.contains(&"whisper model      m.bin".to_string()));
    assert!(lines.contains(&"platforms          1".to_string()));
    let cmd = lines.iter().find(|l| l.starts_with("  youtube  ffmpeg ")).unwrap();
    assert!(!cmd.contains("super-secret"));
}
