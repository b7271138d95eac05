use echochamber::config::{Config, YoutubePlatform};
use echochamber::control::{
    adhoc_destination, destination_count, ingest_status, push_reply, shown_window_ms, PushError,
};

#[test]
fn adhoc_push_needs_a_url() {
    let err = adhoc_destination("   ".into(), None, 5).unwrap_err();
    assert_eq!(err, PushError::UrlRequired);
    assert_eq!(err.message(), "url required");
    let d = adhoc_destination("rtmp://h/app/k".into(), None, 1700000000123).unwrap();
    assert_eq!(d.name, "adhoc-1700000000123");
    assert_eq!(d.url, "rtmp://h/app/k");
    let named = adhoc_destination("rtmp://h/app/k".into(), Some("mine".into()), 1).unwrap();
    assert_eq!(named.name, "mine");
    assert_eq!(push_reply("mine"), "added destination mine\n");
}

#[test]
fn status_shows_the_play_url_and_a_masked_key() {
    let mut cfg = Config::default();
    cfg.ingest.stream_key = "supersecret".into();
    let s = ingest_status(&cfg, true, false);
    assert_eq!(s.bind, "127.0.0.1:1935");
    assert!(s.publishing);
    assert!(!s.standby);
    assert_eq!(s.play_url, "rtmp://127.0.0.1:1935/echochamber/supersecret");
    assert_eq!(s.stream_key, "***cret");
    cfg.platforms.youtube = Some(YoutubePlatform {
        enabled: true,
        stream_key: "k".into(),
        ingest_base: None,
        client_id: None,
        client_secret: None,
        refresh_token: None,
    });
    assert_eq!(destination_count(&cfg, 2), 3);
    assert_eq!(shown_window_ms(0), 1);
    assert_eq!(shown_window_ms(640), 640);
}
