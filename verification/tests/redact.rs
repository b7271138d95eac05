use echochamber::redact::{redact_cmd, redact_key, redact_url};

#[test]
fn short_keys_are_fully_masked() {
    assert_eq!(redact_key("ab"), "**");
    assert_eq!(redact_key("abcd"), "****");
}

#[test]
fn long_keys_keep_last_four() {
    assert_eq!(redact_key("youtube-stream-key-xyz9"), "***xyz9");
}

#[test]
fn slash_and_query_are_not_special() {
    assert_eq!(redact_key("abc/def?ghi"), "***?ghi");
}

#[test]
fn redact_url_masks_final_segment() {
    let url = "rtmp://a.rtmp.youtube.com/live2/super-secret-key";
    let masked = redact_url(url);
    assert!(masked.starts_with("rtmp://a.rtmp.youtube.com/live2/"));
    assert!(!masked.contains("super-secret"));
    assert!(masked.ends_with("key"));
}

#[test]
fn redact_cmd_masks_output_key_only() {
    let args = [
        "-i",
        "rtmp://127.0.0.1:1935",
        "-f",
        "flv",
        "rtmp://a.rtmp.youtube.com/live2/super-secret-key",
    ]
    .map(String::from);
    let cmd = redact_cmd("ffmpeg", &args);
    assert!(cmd.contains("rtmp://127.0.0.1:1935"));
    assert!(!cmd.contains("super-secret"));
    assert!(cmd.contains("rtmp://a.rtmp.youtube.com/live2/"));
}

#[test]
fn redact_cmd_masks_tee_keys() {
    let spec = r"[f=flv:onfail=ignore]rtmp\://a.example/live/super-secret|[f=flv]rtmp\://b.example/app/other-secret".to_string();
    let cmd = redact_cmd("ffmpeg", &[spec]);
    assert!(!cmd.contains("super-secret"));
    assert!(!cmd.contains("other-secret"));
}

#[test]
fn masking_twice_changes_nothing_more() {
    for key in ["", "a", "abcd", "abcde", "  padded-key  ", "youtube-stream-key-xyz9"] {
        let once = redact_key(key);
        assert_eq!(redact_key(&once), once, "{key}");
    }
    assert_eq!(redact_key("   "), "");
    assert_eq!(redact_key("  abcdef  "), "***cdef");
}

#[test]
fn non_rtmp_urls_are_shown_as_they_are() {
    assert_eq!(redact_url("/tmp/out.flv"), "/tmp/out.flv");
    assert_eq!(redact_url(""), "");
    assert_eq!(redact_url("RTMP://host/app/secretkey"), "RTMP://host/app/***tkey");
    assert_eq!(redact_url("rtmp://host/app/"), "***app/");
}

#[test]
fn exact_command_line_is_joined_with_spaces() {
    let args = ["-i", "in", "-f", "flv", "rtmp://h/app/abcdefgh"].map(String::from);
    assert_eq!(
        redact_cmd("ffmpeg", &args),
        "ffmpeg -i in -f flv rtmp://h/app/***efgh"
    );
}

#[test]
fn rtmps_destination_key_is_masked() {
    let args = ["-f", "flv", "rtmps://live.twitch.tv:443/app/live_twitch_key99"].map(String::from);
    assert_eq!(
        redact_cmd("ffmpeg", &args),
        "ffmpeg -f flv rtmps://live.twitch.tv:443/app/***ey99"
    );
}

#[test]
fn escaped_url_before_plain_url_is_masked_too() {
    let spec = r"[f=flv]rtmp\://a.example/live/first-secret|[f=flv]rtmp://b.example/app/second-secret".to_string();
    let cmd = redact_cmd("ffmpeg", &[spec]);
    assert_eq!(
        cmd,
        r"ffmpeg [f=flv]rtmp\://a.example/live/***cret|[f=flv]rtmp://b.example/app/***cret"
    );
    let spec = r"[f=flv]rtmps\://a.example/live/first-secret|[f=flv]rtmps://b.example/app/second-secret".to_string();
    let cmd = redact_cmd("ffmpeg", &[spec]);
    assert_eq!(
        cmd,
        r"ffmpeg [f=flv]rtmps\://a.example/live/***cret|[f=flv]rtmps://b.example/app/***cret"
    );
}

#[test]
fn tee_target_with_port_hides_its_key() {
    let spec = r"[f=flv:onfail=ignore]rtmps\://live.twitch.tv\:443/app/live_twitch_key99".to_string();
    let cmd = redact_cmd("ffmpeg", &[spec]);
    assert!(!cmd.contains("live_twitch_key99"));
    assert!(cmd.ends_with("/app/***ey99"));
    assert!(cmd.contains(r"rtmps\://live.twitch.tv"));
}
