use echochamber::config::{dial_parsed, ingest_host_port_parsed, rebind_parsed};
use echochamber::net::{IpAddress, SocketAddress};
use echochamber::config::{
    Config, ConfigError, StandbyConfig, SubtitleStyle, TwitchPlatform, XPlatform, YoutubePlatform,
};

fn youtube(enabled: bool, key: &str) -> YoutubePlatform {
    YoutubePlatform {
        enabled,
        stream_key: key.into(),
        ingest_base: None,
        client_id: None,
        client_secret: None,
        refresh_token: None,
    }
}

#[test]
fn youtube_and_x_urls() {
    let mut cfg = Config::default();
    cfg.platforms.youtube = Some(youtube(true, "yt-key-1234"));
    cfg.platforms.x = Some(XPlatform {
        enabled: true,
        stream_key: "xkey9999".into(),
        ingest_base: None,
    });
    cfg.platforms.twitch = Some(TwitchPlatform {
        enabled: true,
        stream_key: "live_twitch_key99".into(),
        ingest_base: None,
    });
    assert_eq!(
        cfg.youtube_publish_url().unwrap(),
        "rtmp://a.rtmp.youtube.com/live2/yt-key-1234"
    );
    assert_eq!(cfg.x_publish_url().unwrap(), "rtmp://va.pscp.tv:80/x/xkey9999");
    assert_eq!(
        cfg.twitch_publish_url().unwrap(),
        "rtmp://live.twitch.tv/app/live_twitch_key99"
    );
    assert_eq!(cfg.configured_destinations().len(), 3);
}

#[test]
fn disabled_platform_is_skipped() {
    let mut cfg = Config::default();
    cfg.platforms.youtube = Some(youtube(false, "secret"));
    assert!(cfg.youtube_publish_url().is_none());
    assert!(cfg.configured_destinations().is_empty());
}

#[test]
fn local_rtmp_url_rewrites_wildcard() {
    let mut cfg = Config::default();
    cfg.ingest.bind = "0.0.0.0:1935".into();
    assert_eq!(cfg.local_rtmp_url(), "rtmp://127.0.0.1:1935/echochamber/live");
    assert_eq!(cfg.local_rtmp_tc_url(), "rtmp://127.0.0.1:1935/echochamber");
}

#[test]
fn enabled_platform_without_a_key_is_not_called_disabled() {
    let mut cfg = Config::default();
    cfg.platforms.youtube = Some(youtube(true, ""));
    cfg.platforms.x = Some(XPlatform {
        enabled: false,
        stream_key: "xkey9999".into(),
        ingest_base: None,
    });
    let summary = cfg.masked_summary();
    assert!(
        summary.contains("youtube            enabled, but stream_key is empty"),
        "{summary}"
    );
    assert!(summary.contains("x                  (disabled)"), "{summary}");
    assert!(cfg.configured_destinations().is_empty());
}

#[test]
fn standby_video_resolves_beside_the_config_file() {
    let clip = "/srv/relay/wait.mp4".to_string();
    let is_file = |p: String| p == "/srv/relay/wait.mp4";
    let mut standby = StandbyConfig::default();
    standby.video = "wait.mp4".into();
    assert!(standby.resolve_video("config.toml", None, &is_file).is_none());
    assert_eq!(
        standby.resolve_video("/srv/relay/mine.toml", None, &is_file).unwrap(),
        clip
    );
}

#[test]
fn bind_overrides_host_then_full_addr() {
    let mut cfg = Config::default();
    cfg.apply_bind_overrides(Some("0.0.0.0"), None, None).unwrap();
    assert_eq!(cfg.ingest.bind, "0.0.0.0:1935");
    assert_eq!(cfg.control.bind, "0.0.0.0:8080");
    assert_eq!(cfg.client_control_bind(), "127.0.0.1:8080");
    cfg.apply_bind_overrides(Some("10.0.0.8"), Some("0.0.0.0:1936"), None)
        .unwrap();
    assert_eq!(cfg.ingest.bind, "0.0.0.0:1936");
    assert_eq!(cfg.control.bind, "10.0.0.8:8080");
}

#[test]
fn defaults_leave_the_waiting_video_off() {
    let cfg = Config::default();
    assert!(!cfg.standby.enabled);
    assert!(cfg.standby.after_first_publish);
    assert_eq!(cfg.standby.video, "assets/standby.mp4");
    assert_eq!(cfg.standby.audio, "assets/standby.m4a");
    assert_eq!(cfg.standby.width, 1920);
    assert_eq!(cfg.standby.height, 1080);
    assert_eq!(cfg.standby.fps, 30);
    assert_eq!(cfg.standby.delay_secs, 2);
    assert_eq!(cfg.ingest.app, "echochamber");
    assert_eq!(cfg.ingest.stream_key, "live");
    assert_eq!(cfg.subtitles.style, SubtitleStyle::Modern);
    assert!(cfg.validate_struct().is_ok());
}

#[test]
fn host_override_must_not_be_blank() {
    let mut cfg = Config::default();
    let err = cfg.apply_bind_overrides(Some("   "), None, None).unwrap_err();
    assert!(matches!(err, ConfigError::HostEmpty));
    assert_eq!(err.message(), "--host must not be empty");
    assert_eq!(cfg.ingest.bind, "127.0.0.1:1935");
}

#[test]
fn unparsable_bind_is_named() {
    let mut cfg = Config::default();
    cfg.ingest.bind = "nowhere".into();
    let err = cfg.apply_bind_overrides(Some("0.0.0.0"), None, None).unwrap_err();
    assert_eq!(err.message(), "cannot parse bind nowhere");
}

#[test]
fn structural_problems_are_named() {
    let mut cfg = Config::default();
    cfg.ingest.bind = "not-an-addr".into();
    assert_eq!(
        cfg.validate_struct().unwrap_err().message(),
        "ingest.bind is not a socket address: not-an-addr"
    );
    let mut cfg = Config::default();
    cfg.control.bind = "x".into();
    assert_eq!(
        cfg.validate_struct().unwrap_err().message(),
        "control.bind is not a socket address: x"
    );
    let mut cfg = Config::default();
    cfg.ingest.app = "   ".into();
    assert_eq!(cfg.validate_struct().unwrap_err().message(), "ingest.app must not be empty");
    let mut cfg = Config::default();
    cfg.ingest.stream_key = "".into();
    assert_eq!(
        cfg.validate_struct().unwrap_err().message(),
        "ingest.stream_key must not be empty"
    );
}

#[test]
fn ipv6_wildcard_dials_loopback() {
    let mut cfg = Config::default();
    cfg.control.bind = "[::]:9000".into();
    assert_eq!(cfg.client_control_bind(), "[::1]:9000");
    cfg.control.bind = "0.0.0.0:9000".into();
    assert_eq!(cfg.client_control_bind(), "127.0.0.1:9000");
    cfg.control.bind = "10.1.2.3:9000".into();
    assert_eq!(cfg.client_control_bind(), "10.1.2.3:9000");
    cfg.ingest.bind = "[::1]:1935".into();
    assert_eq!(cfg.ingest_host_port(), ("::1".to_string(), 1935));
    assert_eq!(cfg.local_rtmp_tc_url(), "rtmp://::1:1935/echochamber");
}

#[test]
fn custom_ingest_base_loses_trailing_slashes() {
    let mut cfg = Config::default();
    cfg.platforms.twitch = Some(TwitchPlatform {
        enabled: true,
        stream_key: "  k  ".into(),
        ingest_base: Some("rtmps://live.twitch.tv:443/app//".into()),
    });
    assert_eq!(
        cfg.twitch_publish_url().unwrap(),
        "rtmps://live.twitch.tv:443/app/k"
    );
    let d = cfg.configured_destinations();
    assert_eq!(d.len(), 1);
    assert_eq!(d[0].name, "twitch");
}

#[test]
fn user_config_lives_in_the_config_dir() {
    assert_eq!(
        echochamber::config::user_config_in(Some("/home/u/.config/echochamber".into())),
        Some("/home/u/.config/echochamber/config.toml".to_string())
    );
    assert_eq!(echochamber::config::user_config_in(None), None);
    if let Some(p) = echochamber::config::user_config_path() {
        assert!(p.ends_with("config.toml"));
    }
}

#[test]
fn config_file_choice_follows_the_order() {
    let nothing = |_p: String| false;
    let only_user = |p: String| p == "/u/config.toml";
    let local = |p: String| p == "config.toml";
    assert_eq!(
        echochamber::config::config_path_choice(Some("x.toml"), Some("env.toml"), None, &nothing),
        Some("x.toml".to_string())
    );
    assert_eq!(
        echochamber::config::config_path_choice(None, Some("env.toml"), Some("/u/config.toml"), &local),
        Some("env.toml".to_string())
    );
    assert_eq!(
        echochamber::config::config_path_choice(None, None, Some("/u/config.toml"), &local),
        Some("config.toml".to_string())
    );
    assert_eq!(
        echochamber::config::config_path_choice(None, None, Some("/u/config.toml"), &only_user),
        Some("/u/config.toml".to_string())
    );
    assert_eq!(
        echochamber::config::config_path_choice(None, None, Some("/u/config.toml"), &nothing),
        None
    );
}

#[test]
fn parsed_binds_drive_the_address_logic() {
    let any4 = SocketAddress { ip: IpAddress::V4(0, 0, 0, 0), port: 1935 };
    let any6 = SocketAddress { ip: IpAddress::V6(0, 0, 0, 0, 0, 0, 0, 0), port: 8090 };
    let lan = SocketAddress { ip: IpAddress::V4(192, 168, 1, 2), port: 1936 };

    assert_eq!(rebind_parsed(Some(any4), "0.0.0.0:1935", "::1").unwrap(), "[::1]:1935");
    assert_eq!(rebind_parsed(Some(any4), "0.0.0.0:1935", "10.0.0.5").unwrap(), "10.0.0.5:1935");
    assert_eq!(rebind_parsed(Some(any6), "[::]:8090", "[fe80::1]").unwrap(), "[fe80::1]:8090");
    assert_eq!(
        rebind_parsed(None, "garbage", "10.0.0.5").unwrap_err().message(),
        "cannot parse bind garbage"
    );

    assert_eq!(dial_parsed(Some(any4), "0.0.0.0:1935"), "127.0.0.1:1935");
    assert_eq!(dial_parsed(Some(any6), "[::]:8090"), "[::1]:8090");
    assert_eq!(dial_parsed(Some(lan), "192.168.1.2:1936"), "192.168.1.2:1936");
    assert_eq!(dial_parsed(None, "not an address"), "not an address");

    assert_eq!(ingest_host_port_parsed(None), ("127.0.0.1".to_string(), 1935));
    assert_eq!(ingest_host_port_parsed(Some(any4)), ("127.0.0.1".to_string(), 1935));
    assert_eq!(ingest_host_port_parsed(Some(lan)), ("192.168.1.2".to_string(), 1936));

    let cfg = Config::default();
    assert!(cfg.validate_parsed(Some(any4), Some(lan)).is_ok());
    assert_eq!(
        cfg.validate_parsed(None, Some(lan)).unwrap_err().message(),
        format!("ingest.bind is not a socket address: {}", cfg.ingest.bind)
    );
    assert_eq!(
        cfg.validate_parsed(Some(any4), None).unwrap_err().message(),
        format!("control.bind is not a socket address: {}", cfg.control.bind)
    );
}
