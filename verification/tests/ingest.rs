use echochamber::ingest::{accept_app, accept_key, on_connect, on_fc_publish, PublisherState, Refusal};

#[test]
fn configured_app_and_key_are_accepted() {
    assert!(accept_app("echochamber", "live", "echochamber"));
    assert!(accept_app("/echochamber/", "live", "echochamber/"));
    assert!(accept_app("echochamber", "live", "echochamber/live"));
    assert!(accept_app("echochamber", "live", "echochamber/anything"));
    assert!(!accept_app("echochamber", "live", "other"));
    assert!(!accept_app("echochamber", "live", "echochamberx"));
    assert!(accept_key("live", "live"));
    assert!(accept_key("/live/", "live"));
    assert!(accept_key("live", "echochamber/live"));
    assert!(!accept_key("live", "livex"));
    assert!(!accept_key("live", "xlive"));
}

#[test]
fn refusals_carry_the_encoder_message() {
    assert_eq!(on_connect("echochamber", "live", "nope"), Err(Refusal::UnknownApp));
    assert_eq!(Refusal::UnknownApp.message(), "unknown application");
    assert_eq!(on_fc_publish("live", "wrong"), Err(Refusal::BadKey));
    assert_eq!(Refusal::BadKey.message(), "invalid stream key for echochamber relay");
    assert_eq!(on_connect("echochamber", "live", "echochamber"), Ok(()));
    assert_eq!(on_fc_publish("live", "live"), Ok(()));
}

#[test]
fn publisher_leaving_ends_the_publish() {
    let mut s = PublisherState::new();
    assert!(s.on_publish("live", 7, "echochamber".into(), "live".into()).is_ok());
    assert!(s.publishing && s.ever_published);
    assert_eq!(s.session, 7);
    assert_eq!(s.published.as_ref().unwrap().app, "echochamber");
    s.on_media(true, true, true);
    s.on_media(true, true, false);
    s.on_media(false, true, false);
    assert_eq!(s.keyframes, 1);
    assert!(!s.on_gone(8));
    assert!(s.publishing);
    assert!(s.on_gone(7));
    assert!(!s.publishing);
    assert!(s.published.is_none());
    assert!(s.ever_published);
    assert_eq!(s.keyframes, 1);
}

#[test]
fn rejected_publish_changes_nothing() {
    let mut s = PublisherState::new();
    assert_eq!(s.on_publish("live", 3, "echochamber".into(), "bad".into()), Err(Refusal::BadKey));
    assert!(!s.publishing && !s.ever_published);
    assert_eq!(s.session, 0);
    assert!(!s.on_gone(0));
}

#[test]
fn stop_request_ends_publishing() {
    let mut s = PublisherState::new();
    s.on_publish("live", 1, "echochamber".into(), "live".into()).unwrap();
    s.request_stop();
    assert!(!s.publishing);
    assert_eq!(s.session, 1);
}
