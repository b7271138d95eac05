//! The RTMP ingest's decisions: which application and stream key an encoder
//! may use, and how the publisher's session is tracked from publish to leave.
use vstd::prelude::*;
use vstd::string::*;

use crate::redact::{lemma_trim_end_clean, lemma_trim_end_prefix, lemma_trim_start_clean};
use crate::state::PublishedStream;
use crate::text::{
    ends_with, starts_with, str_ends_with, str_eq, str_starts_with, strips, trim_end_by,
    trim_matches, trim_matches_string, trim_start_by,
};

verus! {

/// The RTMP application `app` is ours: the configured one, the configured
/// one followed by the key, or anything under the configured one (OBS often
/// puts part of the key on the server URL). Slashes at either end do not count.
pub open spec fn app_accepted(cfg_app: Seq<char>, cfg_key: Seq<char>, app: Seq<char>) -> bool {
    let want = trim_matches(cfg_app, '/');
    let got = trim_matches(app, '/');
    got == want || got == want + "/"@ + trim_matches(cfg_key, '/') || starts_with(got, want + "/"@)
}

/// The stream key `key` is ours: the configured key, or a path ending in it.
/// Slashes at either end do not count.
pub open spec fn key_accepted(cfg_key: Seq<char>, key: Seq<char>) -> bool {
    let want = trim_matches(cfg_key, '/');
    let got = trim_matches(key, '/');
    got == want || ends_with(got, "/"@ + want)
}

pub fn accept_app(cfg_app: &str, cfg_key: &str, app: &str) -> (b: bool)
    ensures
        b == app_accepted(cfg_app@, cfg_key@, app@),
{
    proof {
        reveal_strlit("/");
    }
    let want = trim_matches_string(cfg_app, '/');
    let got = trim_matches_string(app, '/');
    if str_eq(got.as_str(), want.as_str()) {
        return true;
    }
    let mut under = want.clone();
    under.append("/");
    let mut with_key = under.clone();
    with_key.append(trim_matches_string(cfg_key, '/').as_str());
    str_eq(got.as_str(), with_key.as_str()) || str_starts_with(got.as_str(), under.as_str())
}

pub fn accept_key(cfg_key: &str, key: &str) -> (b: bool)
    ensures
        b == key_accepted(cfg_key@, key@),
{
    let want = trim_matches_string(cfg_key, '/');
    let got = trim_matches_string(key, '/');
    if str_eq(got.as_str(), want.as_str()) {
        return true;
    }
    let mut tail = "/".to_string();
    tail.append(want.as_str());
    str_ends_with(got.as_str(), tail.as_str())
}

/// Whatever slashes surround them, the configured application and key are
/// accepted.
pub proof fn lemma_configured_names_accepted(cfg_app: Seq<char>, cfg_key: Seq<char>)
    ensures
        app_accepted(cfg_app, cfg_key, cfg_app),
        key_accepted(cfg_key, cfg_key),
{
}

/// What `trim_matches` leaves neither starts nor ends with the trimmed character.
proof fn lemma_trimmed_ends(s: Seq<char>, c: char)
    ensures
        trim_matches(s, c).len() > 0 ==> trim_matches(s, c)[0] != c && trim_matches(s, c).last() != c,
{
    let a = trim_start_by(s, Some(c));
    lemma_trim_start_clean(s, Some(c));
    lemma_trim_end_clean(a, Some(c));
    lemma_trim_end_prefix(a, Some(c));
    if trim_matches(s, c).len() > 0 {
        assert(trim_matches(s, c)[0] == a[0]);
        assert(!strips(Some(c), a[0]));
    }
}

/// A sequence that neither starts nor ends with `c` is left as it is.
proof fn lemma_trim_matches_clean(s: Seq<char>, c: char)
    requires
        s.len() > 0 ==> s[0] != c && s.last() != c,
    ensures
        trim_matches(s, c) == s,
{
    assert(trim_start_by(s, Some(c)) == s);
    assert(trim_end_by(s, Some(c)) == s);
}

/// An encoder that puts the stream key on the server URL as well (so its
/// application is `app/key`) is still accepted, as long as an application
/// is configured.
pub proof fn lemma_key_on_server_url_is_accepted(cfg_app: Seq<char>, cfg_key: Seq<char>)
    requires
        trim_matches(cfg_app, '/').len() > 0,
    ensures
        app_accepted(cfg_app, cfg_key, trim_matches(cfg_app, '/') + "/"@ + trim_matches(cfg_key, '/')),
{
    reveal_strlit("/");
    let want = trim_matches(cfg_app, '/');
    let key = trim_matches(cfg_key, '/');
    let got = want + "/"@ + key;
    lemma_trimmed_ends(cfg_app, '/');
    lemma_trimmed_ends(cfg_key, '/');
    if key.len() > 0 {
        assert(got[0] == want[0]);
        assert(got.last() == key.last());
        lemma_trim_matches_clean(got, '/');
    } else {
        assert(got =~= want + seq!['/']);
        assert(got[0] == want[0]);
        assert(trim_start_by(got, Some('/')) == got);
        assert(got.drop_last() =~= want);
        assert(trim_end_by(want, Some('/')) == want);
        assert(trim_end_by(got, Some('/')) == want);
    }
}

/// Why a connection or publish is turned away.
#[derive(Clone, Copy, Debug, PartialEq, Eq, Structural)]
pub enum Refusal {
    UnknownApp,
    BadKey,
}

impl Refusal {
    pub open spec fn text(self) -> Seq<char> {
        match self {
            Refusal::UnknownApp => "unknown application"@,
            Refusal::BadKey => "invalid stream key for echochamber relay"@,
        }
    }

    /// The reason sent back to the encoder.
    pub fn message(self) -> (r: String)
        ensures
            r@ == self.text(),
    {
        match self {
            Refusal::UnknownApp => "unknown application".to_string(),
            Refusal::BadKey => "invalid stream key for echochamber relay".to_string(),
        }
    }
}

/// The answer to a connect for application `app`.
pub fn on_connect(cfg_app: &str, cfg_key: &str, app: &str) -> (r: Result<(), Refusal>)
    ensures
        r is Ok <==> app_accepted(cfg_app@, cfg_key@, app@),
        r is Err ==> r == Err::<(), Refusal>(Refusal::UnknownApp),
{
    if accept_app(cfg_app, cfg_key, app) {
        Ok(())
    } else {
        Err(Refusal::UnknownApp)
    }
}

/// The answer to an `FCPublish` for `key`.
pub fn on_fc_publish(cfg_key: &str, key: &str) -> (r: Result<(), Refusal>)
    ensures
        r is Ok <==> key_accepted(cfg_key@, key@),
        r is Err ==> r == Err::<(), Refusal>(Refusal::BadKey),
{
    if accept_key(cfg_key, key) {
        Ok(())
    } else {
        Err(Refusal::BadKey)
    }
}

/// Who is publishing to the ingest. A session id of zero means nobody.
#[derive(Debug, Clone)]
pub struct PublisherState {
    pub session: u64,
    pub published: Option<PublishedStream>,
    /// OBS has published at least once since the relay started.
    pub ever_published: bool,
    /// Real keyframes seen in the current publish session.
    pub keyframes: u64,
    pub publishing: bool,
}

/// The state after a publish by `session` of `stream` was accepted: a new
/// session begins with no keyframes seen.
pub open spec fn publish_step(s: PublisherState, session: u64, stream: PublishedStream) -> PublisherState {
    PublisherState {
        session,
        published: Some(stream),
        ever_published: true,
        keyframes: 0,
        publishing: true,
    }
}

/// The state after `session` unpublished or disconnected: only the current
/// publisher's leaving ends the session.
pub open spec fn gone_step(s: PublisherState, session: u64) -> PublisherState {
    if s.session != 0 && s.session == session {
        PublisherState { session: 0, published: None, publishing: false, ..s }
    } else {
        s
    }
}

/// Whether a media tag counts as a keyframe of the session: sequence headers
/// report as keyframes but are not real ones.
pub open spec fn counts_as_keyframe(publishing_stream: bool, keyframe: bool, sequence_header: bool) -> bool {
    publishing_stream && keyframe && !sequence_header
}

/// An accepted publish starts a fresh session: the publisher's session and
/// stream are recorded, the relay is publishing and has been published to,
/// and no keyframe of the new session has been seen yet.
pub proof fn lemma_publish_starts_session(s: PublisherState, session: u64, stream: PublishedStream)
    ensures
        publish_step(s, session, stream).session == session,
        publish_step(s, session, stream).published == Some(stream),
        publish_step(s, session, stream).publishing,
        publish_step(s, session, stream).ever_published,
        publish_step(s, session, stream).keyframes == 0,
{
}

/// Only the current publisher leaving ends the session, and then nothing is
/// published or publishing any more while the keyframe count and whether
/// the relay was ever published to are kept; anyone else leaving (or any
/// leave when no one publishes) changes nothing.
pub proof fn lemma_only_current_publisher_ends_session(s: PublisherState, session: u64)
    ensures
        (s.session != 0 && s.session == session) ==> {
            &&& gone_step(s, session).session == 0
            &&& gone_step(s, session).published is None
            &&& !gone_step(s, session).publishing
            &&& gone_step(s, session).ever_published == s.ever_published
            &&& gone_step(s, session).keyframes == s.keyframes
        },
        !(s.session != 0 && s.session == session) ==> gone_step(s, session) == s,
{
}

/// An accepted key is the configured key, or a path ending in `/` and it
/// (slashes at either end aside); an accepted application is the configured
/// one or lies under it.
pub proof fn lemma_accepted_names_match(cfg_app: Seq<char>, cfg_key: Seq<char>, app: Seq<char>, key: Seq<char>)
    ensures
        key_accepted(cfg_key, key) ==> trim_matches(key, '/') == trim_matches(cfg_key, '/')
            || ends_with(trim_matches(key, '/'), "/"@ + trim_matches(cfg_key, '/')),
        app_accepted(cfg_app, cfg_key, app) ==> trim_matches(app, '/') == trim_matches(cfg_app, '/')
            || starts_with(trim_matches(app, '/'), trim_matches(cfg_app, '/') + "/"@),
{
    reveal_strlit("/");
    let want = trim_matches(cfg_app, '/');
    let got = trim_matches(app, '/');
    let k = trim_matches(cfg_key, '/');
    if got == want + "/"@ + k {
        assert(got.subrange(0, want.len() + 1int) =~= want + "/"@);
    }
}

/// Only a real keyframe of the stream being published counts: a frame that
/// is not a keyframe, a sequence header (even one flagged as a keyframe), or
/// any frame of another stream leaves the count alone.
pub proof fn lemma_only_real_keyframes_count(publishing_stream: bool, keyframe: bool, sequence_header: bool)
    ensures
        counts_as_keyframe(publishing_stream, keyframe, sequence_header) <==> (publishing_stream
            && keyframe && !sequence_header),
        !keyframe ==> !counts_as_keyframe(publishing_stream, keyframe, sequence_header),
        sequence_header ==> !counts_as_keyframe(publishing_stream, keyframe, sequence_header),
        !publishing_stream ==> !counts_as_keyframe(publishing_stream, keyframe, sequence_header),
{
}

impl PublisherState {
    pub fn new() -> (s: Self)
        ensures
            s.session == 0,
            s.published is None,
            !s.ever_published,
            s.keyframes == 0,
            !s.publishing,
    {
        PublisherState { session: 0, published: None, ever_published: false, keyframes: 0, publishing: false }
    }

    /// A publish of `stream_key` on `app` by `session`: accepted (and the
    /// session taken over) exactly when the key is ours.
    pub fn on_publish(&mut self, cfg_key: &str, session: u64, app: String, stream_key: String) -> (r: Result<(), Refusal>)
        ensures
            r is Ok <==> key_accepted(cfg_key@, stream_key@),
            r is Ok ==> *final(self) == publish_step(
                *old(self),
                session,
                PublishedStream { app, stream_key },
            ),
            r is Err ==> r == Err::<(), Refusal>(Refusal::BadKey) && *final(self) == *old(self),
    {
        if !accept_key(cfg_key, stream_key.as_str()) {
            return Err(Refusal::BadKey);
        }
        self.session = session;
        self.published = Some(PublishedStream { app, stream_key });
        self.ever_published = true;
        self.keyframes = 0;
        self.publishing = true;
        Ok(())
    }

    /// `session` unpublished or disconnected. Returns whether that ended the
    /// current publish.
    pub fn on_gone(&mut self, session: u64) -> (ended: bool)
        ensures
            ended == (old(self).session != 0 && old(self).session == session),
            *final(self) == gone_step(*old(self), session),
    {
        if self.session != 0 && self.session == session {
            self.session = 0;
            self.published = None;
            self.publishing = false;
            true
        } else {
            false
        }
    }

    /// A media tag arrived; real keyframes are counted (wrapping, as an
    /// atomic counter does).
    pub fn on_media(&mut self, publishing_stream: bool, keyframe: bool, sequence_header: bool)
        ensures
            final(self).keyframes == (if counts_as_keyframe(publishing_stream, keyframe, sequence_header) {
                (old(self).keyframes + 1) % 0x1_0000_0000_0000_0000
            } else {
                old(self).keyframes as int
            }),
            !keyframe ==> final(self).keyframes == old(self).keyframes,
            sequence_header ==> final(self).keyframes == old(self).keyframes,
            !publishing_stream ==> final(self).keyframes == old(self).keyframes,
            publishing_stream && keyframe && !sequence_header && old(self).keyframes < u64::MAX
                ==> final(self).keyframes == old(self).keyframes + 1,
            final(self).session == old(self).session,
            final(self).published == old(self).published,
            final(self).ever_published == old(self).ever_published,
            final(self).publishing == old(self).publishing,
    {
        if publishing_stream && keyframe && !sequence_header {
            self.keyframes = self.keyframes.wrapping_add(1);
        }
    }

    /// A stop was requested: nothing is treated as publishing any more.
    pub fn request_stop(&mut self)
        ensures
            !final(self).publishing,
            final(self).session == old(self).session,
            final(self).published == old(self).published,
            final(self).ever_published == old(self).ever_published,
            final(self).keyframes == old(self).keyframes,
    {
        self.publishing = false;
    }
}

/// When the session that published leaves, publishing ends and the stream is
/// forgotten, but the relay remembers that OBS was live once.
pub proof fn lemma_publisher_leaving_ends_publish(s: PublisherState, session: u64, stream: PublishedStream)
    requires
        session != 0,
    ensures
        !gone_step(publish_step(s, session, stream), session).publishing,
        gone_step(publish_step(s, session, stream), session).published is None,
        gone_step(publish_step(s, session, stream), session).ever_published,
{
}

/// Another session leaving does not disturb the current publish.
pub proof fn lemma_other_session_leaving_changes_nothing(
    s: PublisherState,
    session: u64,
    other: u64,
    stream: PublishedStream,
)
    requires
        other != session,
    ensures
        gone_step(publish_step(s, session, stream), other) == publish_step(s, session, stream),
{
}

} // verus!
