//! The relay's settings: their defaults, the publish URL of each platform,
//! bind-address overrides, structural checks, and the masked summary.
use vstd::prelude::*;
use vstd::string::*;

use crate::net::{
    ip_is_unspecified, ip_text, ip_to_string, is_unspecified, parse_socket_address,
    socket_address_of, IpAddress, SocketAddress,
};
use crate::paths::{
    asset_candidates, candidates, first_existing, first_present, join_path, opt_view, path_join,
};
use crate::redact::{
    is_rtmp_like, lemma_trim_ends_not_ws, lemma_trim_of_clean, lemma_url_key_is_masked, masked_key,
    masked_url, redact_key, redact_url,
};
use crate::text::{
    chars_of, contains, decimal, ends_with, decimal_string, is_blank, join_strings, join_with, pad_right,
    pad_right_string, starts_with, str_contains, str_starts_with, trim, trim_end_matches,
    trim_end_matches_string, trim_matches, trim_matches_string, trim_string, views,
};

verus! {

pub const DEFAULT_YOUTUBE_INGEST: &'static str = "rtmp://a.rtmp.youtube.com/live2";

pub const DEFAULT_X_INGEST: &'static str = "rtmp://va.pscp.tv:80/x";

pub const DEFAULT_TWITCH_INGEST: &'static str = "rtmp://live.twitch.tv/app";

#[derive(Debug, Clone)]
pub struct Config {
    pub ingest: IngestConfig,
    pub control: ControlConfig,
    pub platforms: Platforms,
    pub subtitles: SubtitlesConfig,
    pub quality: QualityConfig,
    pub standby: StandbyConfig,
}

#[derive(Debug, Clone)]
pub struct IngestConfig {
    /// Bind address for the local RTMP server (OBS publishes here).
    pub bind: String,
    /// RTMP application name. OBS server URL: rtmp://HOST:PORT/<app>
    pub app: String,
    /// Stream key OBS (and ffmpeg play) must use.
    pub stream_key: String,
}

#[derive(Debug, Clone)]
pub struct ControlConfig {
    pub bind: String,
}

#[derive(Debug, Clone)]
pub struct Platforms {
    pub youtube: Option<YoutubePlatform>,
    pub x: Option<XPlatform>,
    pub twitch: Option<TwitchPlatform>,
}

#[derive(Debug, Clone)]
pub struct YoutubePlatform {
    pub enabled: bool,
    pub stream_key: String,
    /// Override the YouTube RTMP ingest base. Default: rtmp://a.rtmp.youtube.com/live2
    pub ingest_base: Option<String>,
    pub client_id: Option<String>,
    pub client_secret: Option<String>,
    pub refresh_token: Option<String>,
}

#[derive(Debug, Clone)]
pub struct XPlatform {
    pub enabled: bool,
    pub stream_key: String,
    /// Override X/Periscope ingest base. Default: rtmp://va.pscp.tv:80/x
    pub ingest_base: Option<String>,
}

#[derive(Debug, Clone)]
pub struct TwitchPlatform {
    pub enabled: bool,
    pub stream_key: String,
    /// Override Twitch ingest base. Default: rtmp://live.twitch.tv/app
    /// RTMPS: rtmps://live.twitch.tv:443/app
    pub ingest_base: Option<String>,
}

#[derive(Debug, Clone)]
pub struct SubtitlesConfig {
    pub enabled: bool,
    /// `auto`, `en`, or `ru`
    pub language: String,
    pub burn_in: bool,
    pub sidecar: bool,
    pub style: SubtitleStyle,
    /// Path to a whisper.cpp ggml/gguf model.
    pub whisper_model: String,
    /// Seconds of audio pulled per Whisper invocation.
    pub chunk_seconds: u64,
}

#[derive(Debug, Clone, Copy, PartialEq, Eq, Structural)]
pub enum SubtitleStyle {
    Modern,
    Minimal,
    Broadcast,
}

#[derive(Debug, Clone)]
pub struct StandbyConfig {
    /// Off unless set true. When on, dests loop `video` while OBS is down.
    pub enabled: bool,
    /// Only after OBS has published once (waiting for resume). If false, slate
    /// also runs before the first go-live.
    pub after_first_publish: bool,
    /// Custom loop clip. Relative paths: cwd, config dir, then binary dir.
    pub video: String,
    /// Optional looping audio bed (m4a/mp3/wav). Empty = silence.
    pub audio: String,
    pub width: u32,
    pub height: u32,
    pub fps: u32,
    /// Wait this long after OBS drops before starting the slate (skip on a hitch).
    pub delay_secs: u64,
}

#[derive(Debug, Clone)]
pub struct QualityConfig {
    pub mode: QualityMode,
    pub preset: String,
    pub crf: u8,
}

#[derive(Debug, Clone, Copy, PartialEq, Eq, Structural)]
pub enum QualityMode {
    Copy,
    Reencode,
}

fn default_ingest_bind() -> (s: String)
    ensures
        s@ == "127.0.0.1:1935"@,
{
    "127.0.0.1:1935".to_string()
}

fn default_app() -> (s: String)
    ensures
        s@ == "echochamber"@,
{
    "echochamber".to_string()
}

fn default_stream_key() -> (s: String)
    ensures
        s@ == "live"@,
{
    "live".to_string()
}

fn default_control_bind() -> (s: String)
    ensures
        s@ == "127.0.0.1:8080"@,
{
    "127.0.0.1:8080".to_string()
}

fn default_language() -> (s: String)
    ensures
        s@ == "auto"@,
{
    "auto".to_string()
}

fn default_true() -> (b: bool)
    ensures
        b,
{
    true
}

fn default_chunk_seconds() -> (n: u64)
    ensures
        n == 8,
{
    8
}

fn default_preset() -> (s: String)
    ensures
        s@ == "veryfast"@,
{
    "veryfast".to_string()
}

fn default_crf() -> (n: u8)
    ensures
        n == 23,
{
    23
}

fn default_standby_video() -> (s: String)
    ensures
        s@ == "assets/standby.mp4"@,
{
    "assets/standby.mp4".to_string()
}

fn default_standby_audio() -> (s: String)
    ensures
        s@ == "assets/standby.m4a"@,
{
    "assets/standby.m4a".to_string()
}

fn default_standby_width() -> (n: u32)
    ensures
        n == 1920,
{
    1920
}

fn default_standby_height() -> (n: u32)
    ensures
        n == 1080,
{
    1080
}

fn default_standby_fps() -> (n: u32)
    ensures
        n == 30,
{
    30
}

fn default_standby_delay() -> (n: u64)
    ensures
        n == 2,
{
    2
}

impl Default for IngestConfig {
    fn default() -> (r: Self)
        ensures
            r.bind@ == "127.0.0.1:1935"@,
            r.app@ == "echochamber"@,
            r.stream_key@ == "live"@,
    {
        Self { bind: default_ingest_bind(), app: default_app(), stream_key: default_stream_key() }
    }
}

impl Default for ControlConfig {
    fn default() -> (r: Self)
        ensures
            r.bind@ == "127.0.0.1:8080"@,
    {
        Self { bind: default_control_bind() }
    }
}

impl Default for Platforms {
    fn default() -> (r: Self)
        ensures
            r.youtube is None,
            r.x is None,
            r.twitch is None,
    {
        Self { youtube: None, x: None, twitch: None }
    }
}

impl Default for SubtitlesConfig {
    fn default() -> (r: Self)
        ensures
            !r.enabled,
            r.language@ == "auto"@,
            !r.burn_in,
            r.sidecar,
            r.style == SubtitleStyle::Modern,
            r.whisper_model@ == Seq::<char>::empty(),
            r.chunk_seconds == 8,
    {
        Self {
            enabled: false,
            language: default_language(),
            burn_in: false,
            sidecar: default_true(),
            style: SubtitleStyle::Modern,
            whisper_model: String::new(),
            chunk_seconds: default_chunk_seconds(),
        }
    }
}

impl Default for SubtitleStyle {
    fn default() -> (r: Self)
        ensures
            r == SubtitleStyle::Modern,
    {
        SubtitleStyle::Modern
    }
}

impl Default for QualityMode {
    fn default() -> (r: Self)
        ensures
            r == QualityMode::Copy,
    {
        QualityMode::Copy
    }
}

impl Default for QualityConfig {
    fn default() -> (r: Self)
        ensures
            r.mode == QualityMode::Copy,
            r.preset@ == "veryfast"@,
            r.crf == 23,
    {
        Self { mode: QualityMode::Copy, preset: default_preset(), crf: default_crf() }
    }
}

impl Default for StandbyConfig {
    fn default() -> (r: Self)
        ensures
            !r.enabled,
            r.after_first_publish,
            r.video@ == "assets/standby.mp4"@,
            r.audio@ == "assets/standby.m4a"@,
            r.width == 1920,
            r.height == 1080,
            r.fps == 30,
            r.delay_secs == 2,
    {
        Self {
            enabled: false,
            after_first_publish: default_true(),
            video: default_standby_video(),
            audio: default_standby_audio(),
            width: default_standby_width(),
            height: default_standby_height(),
            fps: default_standby_fps(),
            delay_secs: default_standby_delay(),
        }
    }
}

/// The settings a missing `config.toml` table falls back to.
pub open spec fn is_default_config(c: Config) -> bool {
    &&& c.ingest.bind@ == "127.0.0.1:1935"@
    &&& c.ingest.app@ == "echochamber"@
    &&& c.ingest.stream_key@ == "live"@
    &&& c.control.bind@ == "127.0.0.1:8080"@
    &&& c.platforms.youtube is None
    &&& c.platforms.x is None
    &&& c.platforms.twitch is None
    &&& !c.subtitles.enabled
    &&& c.subtitles.language@ == "auto"@
    &&& !c.subtitles.burn_in
    &&& c.subtitles.sidecar
    &&& c.subtitles.style == SubtitleStyle::Modern
    &&& c.subtitles.whisper_model@ == Seq::<char>::empty()
    &&& c.subtitles.chunk_seconds == 8
    &&& c.quality.mode == QualityMode::Copy
    &&& c.quality.preset@ == "veryfast"@
    &&& c.quality.crf == 23
    &&& !c.standby.enabled
    &&& c.standby.after_first_publish
    &&& c.standby.video@ == "assets/standby.mp4"@
    &&& c.standby.audio@ == "assets/standby.m4a"@
    &&& c.standby.width == 1920
    &&& c.standby.height == 1080
    &&& c.standby.fps == 30
    &&& c.standby.delay_secs == 2
}

impl Default for Config {
    fn default() -> (r: Self)
        ensures
            is_default_config(r),
    {
        Self {
            ingest: IngestConfig::default(),
            control: ControlConfig::default(),
            platforms: Platforms::default(),
            subtitles: SubtitlesConfig::default(),
            quality: QualityConfig::default(),
            standby: StandbyConfig::default(),
        }
    }
}

/// Why a configuration was refused; `message` gives the text shown to the user.
#[derive(Debug, Clone)]
pub enum ConfigError {
    HostEmpty,
    BindUnparsable(String),
    IngestBindInvalid(String),
    ControlBindInvalid(String),
    AppEmpty,
    StreamKeyEmpty,
}

impl ConfigError {
    pub open spec fn text(&self) -> Seq<char> {
        match self {
            ConfigError::HostEmpty => "--host must not be empty"@,
            ConfigError::BindUnparsable(b) => "cannot parse bind "@ + b@,
            ConfigError::IngestBindInvalid(b) => "ingest.bind is not a socket address: "@ + b@,
            ConfigError::ControlBindInvalid(b) => "control.bind is not a socket address: "@ + b@,
            ConfigError::AppEmpty => "ingest.app must not be empty"@,
            ConfigError::StreamKeyEmpty => "ingest.stream_key must not be empty"@,
        }
    }

    pub fn message(&self) -> (r: String)
        ensures
            r@ == self.text(),
    {
        match self {
            ConfigError::HostEmpty => "--host must not be empty".to_string(),
            ConfigError::BindUnparsable(b) => {
                let mut s = "cannot parse bind ".to_string();
                s.append(b.as_str());
                s
            },
            ConfigError::IngestBindInvalid(b) => {
                let mut s = "ingest.bind is not a socket address: ".to_string();
                s.append(b.as_str());
                s
            },
            ConfigError::ControlBindInvalid(b) => {
                let mut s = "control.bind is not a socket address: ".to_string();
                s.append(b.as_str());
                s
            },
            ConfigError::AppEmpty => "ingest.app must not be empty".to_string(),
            ConfigError::StreamKeyEmpty => "ingest.stream_key must not be empty".to_string(),
        }
    }
}

/// The error text of a result, if it is an error.
pub open spec fn err_text(r: Result<(), ConfigError>) -> Option<Seq<char>> {
    match r {
        Ok(_) => None,
        Err(e) => Some(e.text()),
    }
}

#[derive(Debug, Clone)]
pub struct Destination {
    pub name: String,
    pub url: String,
}

/// Where one platform publishes: its base (or the default) without trailing
/// slashes, then `/`, then the trimmed key; nothing when it is off or has no key.
pub open spec fn platform_url(
    enabled: bool,
    key: Seq<char>,
    base: Option<Seq<char>>,
    default_base: Seq<char>,
) -> Option<Seq<char>> {
    if !enabled || trim(key).len() == 0 {
        None
    } else {
        let b = match base {
            Some(b) => b,
            None => default_base,
        };
        Some(trim_end_matches(b, '/') + "/"@ + trim(key))
    }
}

fn platform_publish_url(enabled: bool, key: &str, base: &Option<String>, default_base: &str) -> (r:
    Option<String>)
    ensures
        opt_view(r) == platform_url(enabled, key@, opt_view(*base), default_base@),
{
    if !enabled || is_blank(key) {
        return None;
    }
    let b: &str = match base {
        Some(b) => b.as_str(),
        None => default_base,
    };
    let mut u = trim_end_matches_string(b, '/');
    u.append("/");
    u.append(trim_string(key).as_str());
    Some(u)
}

/// `[host]:port` when the host has a `:` and no bracket yet, else `host:port`,
/// with the port of the parsed bind address; nothing when it did not parse.
pub open spec fn host_with_port(addr: Option<SocketAddress>, host: Seq<char>) -> Option<Seq<char>> {
    match addr {
        None => None,
        Some(a) => Some(
            if contains(host, ":"@) && !starts_with(host, "["@) {
                "["@ + host + "]:"@ + decimal(a.port as nat)
            } else {
                host + ":"@ + decimal(a.port as nat)
            },
        ),
    }
}

/// `bind` with its host replaced by `host`, the port kept; nothing when
/// `bind` does not parse.
pub open spec fn bind_with_host(bind: Seq<char>, host: Seq<char>) -> Option<Seq<char>> {
    host_with_port(socket_address_of(bind), host)
}

/// The bind address `bind`, parsed as `addr`, rewritten to `host` with the
/// same port; the error names `bind` when it did not parse.
pub fn rebind_parsed(addr: Option<SocketAddress>, bind: &str, host: &str) -> (r: Result<
    String,
    ConfigError,
>)
    ensures
        match r {
            Ok(s) => host_with_port(addr, host@) == Some(s@),
            Err(e) => addr is None && e.text() == "cannot parse bind "@ + bind@,
        },
{
    match addr {
        None => {
            let b = bind.to_string();
            Err(ConfigError::BindUnparsable(b))
        },
        Some(addr) => {
            let port = decimal_string(addr.port as u64);
            if str_contains(host, ":") && !str_starts_with(host, "[") {
                let mut s = "[".to_string();
                s.append(host);
                s.append("]:");
                s.append(port.as_str());
                Ok(s)
            } else {
                let mut s = host.to_string();
                s.append(":");
                s.append(port.as_str());
                Ok(s)
            }
        },
    }
}

fn rewrite_bind_host(bind: &str, host: &str) -> (r: Result<String, ConfigError>)
    ensures
        match r {
            Ok(s) => bind_with_host(bind@, host@) == Some(s@),
            Err(e) => bind_with_host(bind@, host@) is None && e.text() == "cannot parse bind "@
                + bind@,
        },
{
    rebind_parsed(parse_socket_address(bind), bind, host)
}

/// The address a client dials for `bind`, parsed as `addr`: a wildcard
/// address (`0.0.0.0` / `::`) becomes loopback with the same port; anything
/// else, and a bind that did not parse, is dialled as written.
pub open spec fn dial_text(addr: Option<SocketAddress>, bind: Seq<char>) -> Seq<char> {
    match addr {
        Some(a) if is_unspecified(a.ip) => match a.ip {
            IpAddress::V6(..) => "[::1]:"@ + decimal(a.port as nat),
            IpAddress::V4(..) => "127.0.0.1:"@ + decimal(a.port as nat),
        },
        _ => bind,
    }
}

/// The address a client dials for a bind address.
pub open spec fn dial_address(bind: Seq<char>) -> Seq<char> {
    dial_text(socket_address_of(bind), bind)
}

/// The address a client dials for `bind`, parsed as `addr`.
pub fn dial_parsed(addr: Option<SocketAddress>, bind: &str) -> (r: String)
    ensures
        r@ == dial_text(addr, bind@),
{
    match addr {
        Some(addr) => {
            if ip_is_unspecified(&addr.ip) {
                let mut s = match addr.ip {
                    IpAddress::V6(..) => "[::1]:".to_string(),
                    IpAddress::V4(..) => "127.0.0.1:".to_string(),
                };
                s.append(decimal_string(addr.port as u64).as_str());
                s
            } else {
                bind.to_string()
            }
        },
        None => bind.to_string(),
    }
}

fn client_dial_bind(bind: &str) -> (r: String)
    ensures
        r@ == dial_address(bind@),
{
    dial_parsed(parse_socket_address(bind), bind)
}

/// The ingest address a local player uses: the parsed bind address, or
/// `127.0.0.1:1935` when it did not parse.
pub open spec fn ingest_address_of(addr: Option<SocketAddress>) -> SocketAddress {
    match addr {
        Some(a) => a,
        None => SocketAddress { ip: IpAddress::V4(127, 0, 0, 1), port: 1935 },
    }
}

/// Host text a local player dials for the parsed bind address: a wildcard
/// address becomes `127.0.0.1`.
pub open spec fn ingest_host_of(addr: Option<SocketAddress>) -> Seq<char> {
    if is_unspecified(ingest_address_of(addr).ip) {
        "127.0.0.1"@
    } else {
        ip_text(ingest_address_of(addr).ip)
    }
}

/// The ingest address a local player uses for the bind address `bind`.
pub open spec fn ingest_address(bind: Seq<char>) -> SocketAddress {
    ingest_address_of(socket_address_of(bind))
}

/// Host text a local player dials for the bind address `bind`.
pub open spec fn ingest_host(bind: Seq<char>) -> Seq<char> {
    ingest_host_of(socket_address_of(bind))
}

/// Host and port a local player dials, for the ingest bind parsed as `addr`.
pub fn ingest_host_port_parsed(addr: Option<SocketAddress>) -> (r: (String, u16))
    ensures
        r.0@ == ingest_host_of(addr),
        r.1 == ingest_address_of(addr).port,
{
    let addr = match addr {
        Some(a) => a,
        None => SocketAddress { ip: IpAddress::V4(127, 0, 0, 1), port: 1935 },
    };
    let host = if ip_is_unspecified(&addr.ip) {
        "127.0.0.1".to_string()
    } else {
        ip_to_string(&addr.ip)
    };
    (host, addr.port)
}

/// The first structural problem of the four settings that must hold, given
/// whether each bind address parsed.
pub open spec fn struct_problem_parsed(
    ingest_addr: Option<SocketAddress>,
    control_addr: Option<SocketAddress>,
    ingest_bind: Seq<char>,
    control_bind: Seq<char>,
    app: Seq<char>,
    key: Seq<char>,
) -> Option<Seq<char>> {
    if ingest_addr is None {
        Some("ingest.bind is not a socket address: "@ + ingest_bind)
    } else if control_addr is None {
        Some("control.bind is not a socket address: "@ + control_bind)
    } else if trim(app).len() == 0 {
        Some("ingest.app must not be empty"@)
    } else if trim(key).len() == 0 {
        Some("ingest.stream_key must not be empty"@)
    } else {
        None
    }
}

/// The first structural problem of the four settings that must hold.
pub open spec fn struct_problem(
    ingest_bind: Seq<char>,
    control_bind: Seq<char>,
    app: Seq<char>,
    key: Seq<char>,
) -> Option<Seq<char>> {
    struct_problem_parsed(
        socket_address_of(ingest_bind),
        socket_address_of(control_bind),
        ingest_bind,
        control_bind,
        app,
        key,
    )
}

/// The binds after `--host` (and what went wrong there, if anything):
/// each bind keeps its port and takes the trimmed host.
pub open spec fn binds_after_host(ib: Seq<char>, cb: Seq<char>, host: Option<Seq<char>>) -> (
    Seq<char>,
    Seq<char>,
    Option<Seq<char>>,
) {
    match host {
        None => (ib, cb, None),
        Some(h) => {
            let ht = trim(h);
            if ht.len() == 0 {
                (ib, cb, Some("--host must not be empty"@))
            } else {
                match bind_with_host(ib, ht) {
                    None => (ib, cb, Some("cannot parse bind "@ + ib)),
                    Some(ib2) => match bind_with_host(cb, ht) {
                        None => (ib2, cb, Some("cannot parse bind "@ + cb)),
                        Some(cb2) => (ib2, cb2, None),
                    },
                }
            }
        },
    }
}

/// A full-address override replaces the bind with its trimmed text.
pub open spec fn overridden(b: Seq<char>, o: Option<Seq<char>>) -> Seq<char> {
    match o {
        Some(x) => trim(x),
        None => b,
    }
}

/// The optional string view of an optional string slice.
pub open spec fn opt_str(o: Option<&str>) -> Option<Seq<char>> {
    match o {
        Some(s) => Some(s@),
        None => None,
    }
}

/// Two configurations that agree on everything but the two bind addresses.
pub open spec fn same_but_binds(a: Config, b: Config) -> bool {
    &&& a.ingest.app == b.ingest.app
    &&& a.ingest.stream_key == b.ingest.stream_key
    &&& a.platforms == b.platforms
    &&& a.subtitles == b.subtitles
    &&& a.quality == b.quality
    &&& a.standby == b.standby
}

/// `Debug` text of a subtitle style.
pub open spec fn style_name(s: SubtitleStyle) -> Seq<char> {
    match s {
        SubtitleStyle::Modern => "Modern"@,
        SubtitleStyle::Minimal => "Minimal"@,
        SubtitleStyle::Broadcast => "Broadcast"@,
    }
}

fn style_string(s: SubtitleStyle) -> (r: String)
    ensures
        r@ == style_name(s),
{
    match s {
        SubtitleStyle::Modern => "Modern".to_string(),
        SubtitleStyle::Minimal => "Minimal".to_string(),
        SubtitleStyle::Broadcast => "Broadcast".to_string(),
    }
}

/// `Debug` text of a quality mode.
pub open spec fn mode_name(m: QualityMode) -> Seq<char> {
    match m {
        QualityMode::Copy => "Copy"@,
        QualityMode::Reencode => "Reencode"@,
    }
}

fn mode_string(m: QualityMode) -> (r: String)
    ensures
        r@ == mode_name(m),
{
    match m {
        QualityMode::Copy => "Copy".to_string(),
        QualityMode::Reencode => "Reencode".to_string(),
    }
}

/// `Display` text of a `bool`.
pub open spec fn bool_text(b: bool) -> Seq<char> {
    if b {
        "true"@
    } else {
        "false"@
    }
}

pub fn bool_string(b: bool) -> (r: String)
    ensures
        r@ == bool_text(b),
{
    if b {
        "true".to_string()
    } else {
        "false".to_string()
    }
}

/// One destination line of the summary: the masked URL, or why there is none.
pub open spec fn destination_text(
    label: Seq<char>,
    platform: Option<(bool, Seq<char>)>,
    url: Option<Seq<char>>,
) -> Seq<char> {
    let pad = pad_right(label, 19);
    match url {
        Some(u) => pad + masked_url(u),
        None => match platform {
            Some((true, key)) if trim(key).len() == 0 => pad + "enabled, but stream_key is empty"@,
            _ => pad + "(disabled)"@,
        },
    }
}

fn destination_line(label: &str, platform: Option<(bool, &str)>, url: Option<String>) -> (r: String)
    ensures
        r@ == destination_text(
            label@,
            match platform {
                Some((e, k)) => Some((e, k@)),
                None => None,
            },
            opt_view(url),
        ),
{
    let mut pad = pad_right_string(label, 19);
    match url {
        Some(u) => {
            pad.append(redact_url(u.as_str()).as_str());
            pad
        },
        None => {
            let empty_key = match platform {
                Some((true, key)) => is_blank(key),
                _ => false,
            };
            if empty_key {
                pad.append("enabled, but stream_key is empty");
            } else {
                pad.append("(disabled)");
            }
            pad
        },
    }
}

impl StandbyConfig {
    /// Where the waiting video is looked for, in order.
    pub open spec fn video_candidates(
        &self,
        config_path: Seq<char>,
        exe_path: Option<Seq<char>>,
    ) -> Seq<Seq<char>> {
        asset_candidates(config_path, exe_path, self.video@)
    }

    /// Where the waiting audio is looked for, in order.
    pub open spec fn audio_candidates(
        &self,
        config_path: Seq<char>,
        exe_path: Option<Seq<char>>,
    ) -> Seq<Seq<char>> {
        asset_candidates(config_path, exe_path, self.audio@)
    }

    /// The waiting video: the first place it is found, trying the path as
    /// written, beside the config file, then beside the running binary.
    pub fn resolve_video<F: Fn(String) -> bool>(
        &self,
        config_path: &str,
        exe_path: Option<&str>,
        is_file: &F,
    ) -> (r: Option<String>)
        requires
            forall|s: String| is_file.requires((s,)),
        ensures
            first_present(self.video_candidates(config_path@, opt_str(exe_path)), *is_file, r),
    {
        let cands = candidates(config_path, exe_path, self.video.as_str());
        first_existing(cands, is_file)
    }

    /// The waiting audio, looked for as the video is.
    pub fn resolve_audio<F: Fn(String) -> bool>(
        &self,
        config_path: &str,
        exe_path: Option<&str>,
        is_file: &F,
    ) -> (r: Option<String>)
        requires
            forall|s: String| is_file.requires((s,)),
        ensures
            first_present(self.audio_candidates(config_path@, opt_str(exe_path)), *is_file, r),
    {
        let cands = candidates(config_path, exe_path, self.audio.as_str());
        first_existing(cands, is_file)
    }
}

/// The destination list as (name, URL) views.
pub open spec fn destination_views(v: Seq<Destination>) -> Seq<(Seq<char>, Seq<char>)> {
    v.map_values(|d: Destination| (d.name@, d.url@))
}

/// A named destination, if its URL is there.
pub open spec fn named(name: Seq<char>, url: Option<Seq<char>>) -> Seq<(Seq<char>, Seq<char>)> {
    match url {
        Some(u) => seq![(name, u)],
        None => Seq::<(Seq<char>, Seq<char>)>::empty(),
    }
}

impl Config {
    pub open spec fn youtube_url(&self) -> Option<Seq<char>> {
        match self.platforms.youtube {
            Some(p) => platform_url(
                p.enabled,
                p.stream_key@,
                opt_view(p.ingest_base),
                DEFAULT_YOUTUBE_INGEST@,
            ),
            None => None,
        }
    }

    pub open spec fn x_url(&self) -> Option<Seq<char>> {
        match self.platforms.x {
            Some(p) => platform_url(
                p.enabled,
                p.stream_key@,
                opt_view(p.ingest_base),
                DEFAULT_X_INGEST@,
            ),
            None => None,
        }
    }

    pub open spec fn twitch_url(&self) -> Option<Seq<char>> {
        match self.platforms.twitch {
            Some(p) => platform_url(
                p.enabled,
                p.stream_key@,
                opt_view(p.ingest_base),
                DEFAULT_TWITCH_INGEST@,
            ),
            None => None,
        }
    }

    /// The configured destinations, in the order youtube, x, twitch.
    pub open spec fn destinations(&self) -> Seq<(Seq<char>, Seq<char>)> {
        named("youtube"@, self.youtube_url()) + named("x"@, self.x_url()) + named(
            "twitch"@,
            self.twitch_url(),
        )
    }

    /// `rtmp://host:port/app`.
    pub open spec fn tc_url(&self) -> Seq<char> {
        "rtmp://"@ + ingest_host(self.ingest.bind@) + ":"@ + decimal(
            ingest_address(self.ingest.bind@).port as nat,
        ) + "/"@ + trim_matches(self.ingest.app@, '/')
    }

    /// `rtmp://host:port/app/key`.
    pub open spec fn play_url(&self) -> Seq<char> {
        self.tc_url() + "/"@ + trim_matches(self.ingest.stream_key@, '/')
    }

    /// The first structural problem, if any.
    pub open spec fn problem(&self) -> Option<Seq<char>> {
        struct_problem(
            self.ingest.bind@,
            self.control.bind@,
            self.ingest.app@,
            self.ingest.stream_key@,
        )
    }

    /// The platform switches as the summary reads them.
    pub open spec fn youtube_switch(&self) -> Option<(bool, Seq<char>)> {
        match self.platforms.youtube {
            Some(p) => Some((p.enabled, p.stream_key@)),
            None => None,
        }
    }

    pub open spec fn x_switch(&self) -> Option<(bool, Seq<char>)> {
        match self.platforms.x {
            Some(p) => Some((p.enabled, p.stream_key@)),
            None => None,
        }
    }

    pub open spec fn twitch_switch(&self) -> Option<(bool, Seq<char>)> {
        match self.platforms.twitch {
            Some(p) => Some((p.enabled, p.stream_key@)),
            None => None,
        }
    }

    /// The lines of the masked summary.
    pub open spec fn summary_lines(&self) -> Seq<Seq<char>> {
        let s = self.subtitles;
        let sb = self.standby;
        seq![
            "ingest.bind        "@ + self.ingest.bind@,
            "ingest.app         "@ + self.ingest.app@,
            "ingest.stream_key  "@ + masked_key(self.ingest.stream_key@),
            "control.bind       "@ + self.control.bind@,
            "local play/publish "@ + self.play_url(),
            destination_text("youtube"@, self.youtube_switch(), self.youtube_url()),
            destination_text("x"@, self.x_switch(), self.x_url()),
            destination_text("twitch"@, self.twitch_switch(), self.twitch_url()),
            "subtitles          enabled="@ + bool_text(s.enabled) + " burn_in="@ + bool_text(
                s.burn_in,
            ) + " sidecar="@ + bool_text(s.sidecar) + " lang="@ + s.language@ + " style="@
                + style_name(s.style),
            "quality.mode       "@ + mode_name(self.quality.mode),
            "standby            enabled="@ + bool_text(sb.enabled) + " after_first_publish="@
                + bool_text(sb.after_first_publish) + " "@ + decimal(sb.width as nat) + "x"@
                + decimal(sb.height as nat) + "@"@ + decimal(sb.fps as nat) + " "@ + sb.video@
                + " "@ + (if sb.audio@.len() == 0 {
                "(silence)"@
            } else {
                sb.audio@
            }),
        ]
    }

    pub fn youtube_publish_url(&self) -> (r: Option<String>)
        ensures
            opt_view(r) == self.youtube_url(),
    {
        match &self.platforms.youtube {
            Some(p) => platform_publish_url(
                p.enabled,
                p.stream_key.as_str(),
                &p.ingest_base,
                DEFAULT_YOUTUBE_INGEST,
            ),
            None => None,
        }
    }

    pub fn x_publish_url(&self) -> (r: Option<String>)
        ensures
            opt_view(r) == self.x_url(),
    {
        match &self.platforms.x {
            Some(p) => platform_publish_url(
                p.enabled,
                p.stream_key.as_str(),
                &p.ingest_base,
                DEFAULT_X_INGEST,
            ),
            None => None,
        }
    }

    pub fn twitch_publish_url(&self) -> (r: Option<String>)
        ensures
            opt_view(r) == self.twitch_url(),
    {
        match &self.platforms.twitch {
            Some(p) => platform_publish_url(
                p.enabled,
                p.stream_key.as_str(),
                &p.ingest_base,
                DEFAULT_TWITCH_INGEST,
            ),
            None => None,
        }
    }

    pub fn configured_destinations(&self) -> (r: Vec<Destination>)
        ensures
            destination_views(r@) == self.destinations(),
    {
        let mut out: Vec<Destination> = Vec::new();
        assert(destination_views(out@) =~= Seq::<(Seq<char>, Seq<char>)>::empty());
        if let Some(url) = self.youtube_publish_url() {
            out.push(Destination { name: "youtube".to_string(), url });
        }
        assert(destination_views(out@) =~= named("youtube"@, self.youtube_url()));
        let ghost after_youtube = destination_views(out@);
        if let Some(url) = self.x_publish_url() {
            out.push(Destination { name: "x".to_string(), url });
        }
        assert(destination_views(out@) =~= after_youtube + named("x"@, self.x_url()));
        let ghost after_x = destination_views(out@);
        if let Some(url) = self.twitch_publish_url() {
            out.push(Destination { name: "twitch".to_string(), url });
        }
        assert(destination_views(out@) =~= after_x + named("twitch"@, self.twitch_url()));
        out
    }

    /// CLI overrides. `--host` rewrites the IP on both binds (ports stay).
    /// `--ingest-bind` / `--control-bind` replace the full address and win over `--host`.
    pub fn apply_bind_overrides(
        &mut self,
        host: Option<&str>,
        ingest_bind: Option<&str>,
        control_bind: Option<&str>,
    ) -> (r: Result<(), ConfigError>)
        ensures
            same_but_binds(*final(self), *old(self)),
            ({
                let (ib, cb, failed) = binds_after_host(
                    old(self).ingest.bind@,
                    old(self).control.bind@,
                    opt_str(host),
                );
                match failed {
                    Some(m) => {
                        &&& final(self).ingest.bind@ == ib
                        &&& final(self).control.bind@ == cb
                        &&& err_text(r) == Some(m)
                    },
                    None => {
                        &&& final(self).ingest.bind@ == overridden(ib, opt_str(ingest_bind))
                        &&& final(self).control.bind@ == overridden(cb, opt_str(control_bind))
                        &&& err_text(r) == final(self).problem()
                    },
                }
            }),
    {
        if let Some(h) = host {
            if is_blank(h) {
                return Err(ConfigError::HostEmpty);
            }
            let ht = trim_string(h);
            let ib = rewrite_bind_host(self.ingest.bind.as_str(), ht.as_str())?;
            self.ingest.bind = ib;
            let cb = rewrite_bind_host(self.control.bind.as_str(), ht.as_str())?;
            self.control.bind = cb;
        }
        if let Some(b) = ingest_bind {
            self.ingest.bind = trim_string(b);
        }
        if let Some(b) = control_bind {
            self.control.bind = trim_string(b);
        }
        self.validate_struct()
    }

    /// Address clients should dial. `0.0.0.0` / `::` become loopback, same port.
    pub fn client_control_bind(&self) -> (r: String)
        ensures
            r@ == dial_address(self.control.bind@),
    {
        client_dial_bind(self.control.bind.as_str())
    }

    pub fn validate_struct(&self) -> (r: Result<(), ConfigError>)
        ensures
            err_text(r) == self.problem(),
    {
        let ia = parse_socket_address(self.ingest.bind.as_str());
        let ca = parse_socket_address(self.control.bind.as_str());
        self.validate_parsed(ia, ca)
    }

    /// The structural check, given the ingest and control binds as parsed.
    pub fn validate_parsed(
        &self,
        ingest_addr: Option<SocketAddress>,
        control_addr: Option<SocketAddress>,
    ) -> (r: Result<(), ConfigError>)
        ensures
            err_text(r) == struct_problem_parsed(
                ingest_addr,
                control_addr,
                self.ingest.bind@,
                self.control.bind@,
                self.ingest.app@,
                self.ingest.stream_key@,
            ),
    {
        if ingest_addr.is_none() {
            return Err(ConfigError::IngestBindInvalid(self.ingest.bind.clone()));
        }
        if control_addr.is_none() {
            return Err(ConfigError::ControlBindInvalid(self.control.bind.clone()));
        }
        if is_blank(self.ingest.app.as_str()) {
            return Err(ConfigError::AppEmpty);
        }
        if is_blank(self.ingest.stream_key.as_str()) {
            return Err(ConfigError::StreamKeyEmpty);
        }
        Ok(())
    }

    pub fn ingest_host_port(&self) -> (r: (String, u16))
        ensures
            r.0@ == ingest_host(self.ingest.bind@),
            r.1 == ingest_address(self.ingest.bind@).port,
    {
        ingest_host_port_parsed(parse_socket_address(self.ingest.bind.as_str()))
    }

    /// tcUrl OBS uses: rtmp://host:port/app  (stream key is a separate playpath)
    pub fn local_rtmp_tc_url(&self) -> (r: String)
        ensures
            r@ == self.tc_url(),
    {
        let (host, port) = self.ingest_host_port();
        let mut s = "rtmp://".to_string();
        s.append(host.as_str());
        s.append(":");
        s.append(decimal_string(port as u64).as_str());
        s.append("/");
        s.append(trim_matches_string(self.ingest.app.as_str(), '/').as_str());
        s
    }

    /// Display URL including playpath. Do not pass this whole string to ffmpeg -i:
    /// ffmpeg would treat `app/key` as the RTMP application name, so a play of
    /// `.../echochamber/live` fails with "Stream not found: live" when OBS
    /// published as app=`echochamber` + stream=`live`.
    pub fn local_rtmp_url(&self) -> (r: String)
        ensures
            r@ == self.play_url(),
    {
        let mut s = self.local_rtmp_tc_url();
        s.append("/");
        s.append(trim_matches_string(self.ingest.stream_key.as_str(), '/').as_str());
        s
    }

    pub fn masked_summary(&self) -> (r: String)
        ensures
            r@ == join_with(self.summary_lines(), "\n"@),
    {
        let mut lines: Vec<String> = Vec::new();
        let mut l = "ingest.bind        ".to_string();
        l.append(self.ingest.bind.as_str());
        lines.push(l);
        let mut l = "ingest.app         ".to_string();
        l.append(self.ingest.app.as_str());
        lines.push(l);
        let mut l = "ingest.stream_key  ".to_string();
        l.append(redact_key(self.ingest.stream_key.as_str()).as_str());
        lines.push(l);
        let mut l = "control.bind       ".to_string();
        l.append(self.control.bind.as_str());
        lines.push(l);
        let mut l = "local play/publish ".to_string();
        l.append(self.local_rtmp_url().as_str());
        lines.push(l);
        let yt = match &self.platforms.youtube {
            Some(p) => Some((p.enabled, p.stream_key.as_str())),
            None => None,
        };
        lines.push(destination_line("youtube", yt, self.youtube_publish_url()));
        let xp = match &self.platforms.x {
            Some(p) => Some((p.enabled, p.stream_key.as_str())),
            None => None,
        };
        lines.push(destination_line("x", xp, self.x_publish_url()));
        let tw = match &self.platforms.twitch {
            Some(p) => Some((p.enabled, p.stream_key.as_str())),
            None => None,
        };
        lines.push(destination_line("twitch", tw, self.twitch_publish_url()));
        lines.push(self.subtitles_line());
        let mut l = "quality.mode       ".to_string();
        l.append(mode_string(self.quality.mode).as_str());
        lines.push(l);
        lines.push(self.standby_line());
        assert(views(lines@) =~= self.summary_lines());
        join_strings(&lines, "\n")
    }

    fn subtitles_line(&self) -> (r: String)
        ensures
            r@ == self.summary_lines()[8],
    {
        let s = &self.subtitles;
        let mut l = "subtitles          enabled=".to_string();
        l.append(bool_string(s.enabled).as_str());
        l.append(" burn_in=");
        l.append(bool_string(s.burn_in).as_str());
        l.append(" sidecar=");
        l.append(bool_string(s.sidecar).as_str());
        l.append(" lang=");
        l.append(s.language.as_str());
        l.append(" style=");
        l.append(style_string(s.style).as_str());
        l
    }

    fn standby_line(&self) -> (r: String)
        ensures
            r@ == self.summary_lines()[10],
    {
        let sb = &self.standby;
        let mut l = "standby            enabled=".to_string();
        l.append(bool_string(sb.enabled).as_str());
        l.append(" after_first_publish=");
        l.append(bool_string(sb.after_first_publish).as_str());
        l.append(" ");
        l.append(decimal_string(sb.width as u64).as_str());
        l.append("x");
        l.append(decimal_string(sb.height as u64).as_str());
        l.append("@");
        l.append(decimal_string(sb.fps as u64).as_str());
        l.append(" ");
        l.append(sb.video.as_str());
        l.append(" ");
        if sb.audio.as_str().is_empty() {
            l.append("(silence)");
        } else {
            l.append(sb.audio.as_str());
        }
        l
    }
}

/// A site is sent the stream exactly when it is on and has a key, and its
/// address then ends with `/` and the trimmed key.
pub proof fn lemma_sites_need_a_key(
    enabled: bool,
    key: Seq<char>,
    base: Option<Seq<char>>,
    default_base: Seq<char>,
)
    ensures
        platform_url(enabled, key, base, default_base) is Some <==> (enabled && trim(key).len() > 0),
        match platform_url(enabled, key, base, default_base) {
            Some(u) => ends_with(u, "/"@ + trim(key)),
            None => true,
        },
{
    match platform_url(enabled, key, base, default_base) {
        Some(u) => {
            let b = match base {
                Some(b) => b,
                None => default_base,
            };
            let head = trim_end_matches(b, '/');
            let tail = "/"@ + trim(key);
            assert(u == head + tail);
            assert(u.subrange(u.len() - tail.len(), u.len() as int) =~= tail);
        },
        None => {},
    }
}

/// `--host` keeps each bind's port: the new bind ends with `:` and the port
/// the old one had.
pub proof fn lemma_host_override_keeps_port(bind: Seq<char>, host: Seq<char>)
    ensures
        match (bind_with_host(bind, host), socket_address_of(bind)) {
            (Some(b), Some(a)) => ends_with(b, ":"@ + decimal(a.port as nat)),
            (None, None) => true,
            _ => false,
        },
{
    match socket_address_of(bind) {
        Some(a) => {
            let tail = ":"@ + decimal(a.port as nat);
            let b = bind_with_host(bind, host).unwrap();
            if contains(host, ":"@) && !starts_with(host, "["@) {
                reveal_strlit("]:");
                reveal_strlit(":");
                assert(b =~= "["@ + host + "]"@ + tail) by {
                    reveal_strlit("]");
                    reveal_strlit("[");
                }
                assert(b.subrange(b.len() - tail.len(), b.len() as int) =~= tail);
            } else {
                assert(b.subrange(b.len() - tail.len(), b.len() as int) =~= tail);
            }
        },
        None => {},
    }
}

/// A full-address override wins over `--host`: the bind becomes the
/// override, trimmed, whatever the host made of it.
pub proof fn lemma_full_address_wins(ib: Seq<char>, cb: Seq<char>, host: Option<Seq<char>>, x: Seq<char>)
    ensures
        overridden(binds_after_host(ib, cb, host).0, Some(x)) == trim(x),
        overridden(binds_after_host(ib, cb, host).1, Some(x)) == trim(x),
{
}

/// The configured destinations are the sites that are on and have a key,
/// in the order youtube, x, twitch, each under its own name.
pub proof fn lemma_destinations_are_the_sites_with_keys(cfg: Config)
    ensures
        cfg.destinations() == named("youtube"@, cfg.youtube_url()) + named("x"@, cfg.x_url())
            + named("twitch"@, cfg.twitch_url()),
        cfg.destinations().len() <= 3,
        cfg.destinations().len() == 0 <==> (cfg.youtube_url() is None && cfg.x_url() is None
            && cfg.twitch_url() is None),
{
}

/// The summary never shows a key in clear where it names one: it has eleven
/// lines; the third shows the ingest key masked; each site's line, when the
/// site has a publish URL, shows that URL masked; the last ends with the
/// audio bed, or `(silence)` when there is none.
pub proof fn lemma_summary_hides_keys(cfg: Config)
    ensures
        ({
            let l = cfg.summary_lines();
            &&& l.len() == 11
            &&& l[2] == "ingest.stream_key  "@ + masked_key(cfg.ingest.stream_key@)
            &&& cfg.youtube_url() matches Some(u) ==> l[5] == pad_right("youtube"@, 19) + masked_url(u)
            &&& cfg.x_url() matches Some(u) ==> l[6] == pad_right("x"@, 19) + masked_url(u)
            &&& cfg.twitch_url() matches Some(u) ==> l[7] == pad_right("twitch"@, 19) + masked_url(u)
            &&& ends_with(
                l[10],
                " "@ + (if cfg.standby.audio@.len() == 0 {
                    "(silence)"@
                } else {
                    cfg.standby.audio@
                }),
            )
        }),
{
    let l = cfg.summary_lines();
    let tail = " "@ + (if cfg.standby.audio@.len() == 0 {
        "(silence)"@
    } else {
        cfg.standby.audio@
    });
    assert(l[10].subrange(l[10].len() - tail.len(), l[10].len() as int) =~= tail);
}

/// A site's summary line shows its publish URL with the key masked: the
/// ingest base (without trailing `/`), a `/`, then the masked key, when the
/// base is an RTMP URL and the trimmed key holds no `/`.
pub proof fn lemma_site_line_masks_key(
    label: Seq<char>,
    key: Seq<char>,
    base: Option<Seq<char>>,
    default_base: Seq<char>,
)
    requires
        trim(key).len() > 0,
        forall|i: int| 0 <= i < trim(key).len() ==> trim(key)[i] != '/',
        is_rtmp_like(
            trim_end_matches(
                match base {
                    Some(b) => b,
                    None => default_base,
                },
                '/',
            ) + "/"@ + trim(key),
        ),
    ensures
        destination_text(label, Some((true, key)), platform_url(true, key, base, default_base))
            == pad_right(label, 19) + trim_end_matches(
            match base {
                Some(b) => b,
                None => default_base,
            },
            '/',
        ) + "/"@ + masked_key(key),
{
    let b = match base {
        Some(b) => b,
        None => default_base,
    };
    let t = trim(key);
    lemma_url_key_is_masked(trim_end_matches(b, '/'), t);
    lemma_trim_ends_not_ws(key);
    lemma_trim_of_clean(t);
    assert(masked_key(t) == masked_key(key));
}

/// The message when no configuration file was found.
pub const NO_CONFIG: &'static str = "no config found. Run `echochamber init` or pass --config. Looked at ./config.toml and ~/.config/echochamber/config.toml";

/// The configuration file in the working directory.
pub const LOCAL_CONFIG: &'static str = "config.toml";

/// The qualifier (reverse domain) the per-user directories are named under: none.
pub const QUALIFIER: &'static str = "";

/// The organization the per-user directories are named under: none.
pub const ORGANIZATION: &'static str = "";

/// The application name the per-user directories are named after.
pub const APPLICATION: &'static str = "echochamber";

/// Calls `directories::ProjectDirs::from(qualifier, organization, application)`
/// and gives its configuration directory as text (lossily, where the path is
/// not UTF-8). Where that is, and whether there is one, depends on the platform
/// and the environment (the home directory), so nothing is promised of it.
#[verifier::external_body]
fn project_config_dir(qualifier: &str, organization: &str, application: &str) -> (r: Option<
    String,
>) {
    match directories::ProjectDirs::from(qualifier, organization, application) {
        Some(d) => Some(d.config_dir().to_string_lossy().into_owned()),
        None => None,
    }
}

/// `config.toml` in a configuration directory, if there is one.
pub fn user_config_in(dir: Option<String>) -> (r: Option<String>)
    ensures
        opt_view(r) == match dir {
            Some(d) => Some(path_join(d@, LOCAL_CONFIG@)),
            None => None,
        },
{
    match dir {
        Some(d) => Some(join_path(d.as_str(), LOCAL_CONFIG)),
        None => None,
    }
}

/// The per-user configuration file: `config.toml` in the configuration
/// directory that the platform gives for `QUALIFIER`, `ORGANIZATION` and
/// `APPLICATION`, when it gives one.
pub fn user_config_path() -> (r: Option<String>)
    ensures
        r matches Some(p) ==> exists|d: Seq<char>| p@ == path_join(d, LOCAL_CONFIG@),
{
    let dir = project_config_dir(QUALIFIER, ORGANIZATION, APPLICATION);
    let r = user_config_in(dir);
    proof {
        if r is Some {
            let d = dir->0@;
            assert(r->0@ == path_join(d, LOCAL_CONFIG@));
        }
    }
    r
}

/// The files looked for when neither `--config` nor the environment names one.
pub open spec fn discovered_candidates(user_config: Option<Seq<char>>) -> Seq<Seq<char>> {
    seq![LOCAL_CONFIG@] + match user_config {
        Some(u) => seq![u],
        None => Seq::<Seq<char>>::empty(),
    }
}

/// Which configuration file to read: the one passed with `--config`, else the
/// one `ECHOCHAMBER_CONFIG` names (neither is checked for existence), else the
/// first of `./config.toml` and the per-user file that `is_file` reports present.
pub fn config_path_choice<F: Fn(String) -> bool>(
    explicit: Option<&str>,
    env: Option<&str>,
    user_config: Option<&str>,
    is_file: &F,
) -> (r: Option<String>)
    requires
        forall|s: String| is_file.requires((s,)),
    ensures
        explicit is Some ==> opt_view(r) == opt_str(explicit),
        explicit is None && env is Some ==> opt_view(r) == opt_str(env),
        explicit is None && env is None ==> first_present(
            discovered_candidates(opt_str(user_config)),
            *is_file,
            r,
        ),
{
    if let Some(p) = explicit {
        return Some(p.to_string());
    }
    if let Some(p) = env {
        return Some(p.to_string());
    }
    let mut cands: Vec<String> = Vec::new();
    cands.push(LOCAL_CONFIG.to_string());
    if let Some(u) = user_config {
        cands.push(u.to_string());
    }
    assert(views(cands@) =~= discovered_candidates(opt_str(user_config)));
    first_existing(cands, is_file)
}

} // verus!
