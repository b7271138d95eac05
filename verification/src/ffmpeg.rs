//! ffmpeg argument lists: pushing the live ingest to a destination, looping
//! the waiting video to one or many destinations, and pulling audio for captions.
use vstd::prelude::*;
use vstd::string::*;

use crate::config::{Config, QualityMode};
use crate::net::IpAddress;
use crate::config::{ingest_address, ingest_host};
use crate::paths::opt_view;
use crate::redact::{is_rtmp_like, rtmp_like};
use crate::state::PublishedStream;
use crate::text::{
    chars_of, decimal, decimal_string, is_ws, is_ws_char, join_strings, join_with, lines,
    lines_of, occurs_at, occurs_at_exec, push_all, push_text, trim_end_matches, trim_end_matches_string, trim_matches,
    trim_matches_string, views,
};

verus! {

/// Burn-in filter. Prefer `ass=filename=...` (no force_style quoting).
pub fn build_burn_filter_if_needed(ass_path: &str, burn_in: bool) -> (r: Option<String>)
    ensures
        opt_view(r) == (if burn_in {
            Some("ass=filename="@ + ass_path@)
        } else {
            None
        }),
{
    if !burn_in {
        return None;
    }
    let mut s = "ass=filename=".to_string();
    s.append(ass_path);
    Some(s)
}

pub struct PusherSpec {
    pub input: String,
    pub rtmp_app: String,
    pub rtmp_playpath: String,
    pub output: String,
    pub burn_filter: Option<String>,
    pub mode: QualityMode,
    pub preset: String,
    pub crf: u8,
}

/// Input options that force ffmpeg's RTMP client to use the given app/playpath split.
pub open spec fn input_opts(tc_url: Seq<char>, app: Seq<char>, playpath: Seq<char>) -> Seq<
    Seq<char>,
> {
    seq![
        "-rtmp_live"@,
        "live"@,
        "-rtmp_app"@,
        app,
        "-rtmp_playpath"@,
        playpath,
        "-rtmp_tcurl"@,
        trim_end_matches(tc_url, '/') + "/"@ + trim_matches(app, '/'),
        "-i"@,
        tc_url,
    ]
}

/// Force ffmpeg's RTMP client to use the same app/playpath split the encoder used.
/// `tc_url` must be `rtmp://host:port` with no path — ffmpeg 9 re-parses paths on -i
/// and would otherwise ignore -rtmp_app.
pub fn rtmp_input_opts(tc_url: &str, app: &str, playpath: &str) -> (r: Vec<String>)
    ensures
        views(r@) == input_opts(tc_url@, app@, playpath@),
{
    let mut tcurl = trim_end_matches_string(tc_url, '/');
    tcurl.append("/");
    tcurl.append(trim_matches_string(app, '/').as_str());
    let mut v: Vec<String> = Vec::new();
    push_text(&mut v, "-rtmp_live");
    push_text(&mut v, "live");
    push_text(&mut v, "-rtmp_app");
    push_text(&mut v, app);
    push_text(&mut v, "-rtmp_playpath");
    push_text(&mut v, playpath);
    push_text(&mut v, "-rtmp_tcurl");
    push_text(&mut v, tcurl.as_str());
    push_text(&mut v, "-i");
    push_text(&mut v, tc_url);
    assert(views(v@) =~= input_opts(tc_url@, app@, playpath@));
    v
}

/// The ingest as a player reaches it, `rtmp://host:port` with no path.
pub open spec fn ingest_input(cfg: Config) -> Seq<char> {
    "rtmp://"@ + ingest_host(cfg.ingest.bind@) + ":"@ + decimal(
        ingest_address(cfg.ingest.bind@).port as nat,
    )
}

/// The app a pusher plays: the encoder's own, else the configured one.
pub open spec fn play_app(cfg: Config, published: Option<PublishedStream>) -> Seq<char> {
    match published {
        Some(p) => p.app@,
        None => trim_matches(cfg.ingest.app@, '/'),
    }
}

/// The stream name a pusher plays: the encoder's own, else the configured key.
pub open spec fn play_path(cfg: Config, published: Option<PublishedStream>) -> Seq<char> {
    match published {
        Some(p) => p.stream_key@,
        None => trim_matches(cfg.ingest.stream_key@, '/'),
    }
}

/// The options of a pusher that are still simple copies.
pub open spec fn copies_fast(mode: QualityMode, burn: Option<Seq<char>>) -> bool {
    mode == QualityMode::Copy && burn is None
}

/// The arguments of a pusher that plays `app`/`playpath` from `input` and
/// sends to `output`.
pub open spec fn push_args(
    input: Seq<char>,
    app: Seq<char>,
    playpath: Seq<char>,
    output: Seq<char>,
    burn: Option<Seq<char>>,
    mode: QualityMode,
    preset: Seq<char>,
    crf: u8,
) -> Seq<Seq<char>> {
    let fast = copies_fast(mode, burn);
    let crf = decimal(crf as nat);
    seq![
        "-hide_banner"@,
        "-loglevel"@,
        "warning"@,
        "-progress"@,
        "pipe:1"@,
        "-stats_period"@,
        "0.2"@,
        "-rw_timeout"@,
        "15000000"@,
    ] + (if fast {
        seq![
            "-fflags"@,
            "+nobuffer+discardcorrupt"@,
            "-probesize"@,
            "32768"@,
            "-analyzeduration"@,
            "0"@,
        ]
    } else {
        seq!["-fflags"@, "+genpts+discardcorrupt"@]
    }) + input_opts(input, app, playpath) + (if fast {
        seq!["-c"@, "copy"@]
    } else if mode == QualityMode::Copy {
        seq!["-c:v"@, "libx264"@, "-preset"@, preset, "-crf"@, crf, "-c:a"@, "copy"@]
    } else {
        seq![
            "-c:v"@,
            "libx264"@,
            "-preset"@,
            preset,
            "-crf"@,
            crf,
            "-c:a"@,
            "aac"@,
            "-b:a"@,
            "128k"@,
            "-g"@,
            "60"@,
        ]
    }) + (match burn {
        Some(vf) => seq!["-vf"@, vf],
        None => Seq::<Seq<char>>::empty(),
    }) + (if fast {
        seq!["-muxdelay"@, "0"@, "-muxpreload"@, "0"@]
    } else {
        seq!["-avoid_negative_ts"@, "make_zero"@]
    }) + seq!["-f"@, "flv"@, "-flvflags"@, "no_duration_filesize"@, output]
}

/// The shape of every push command. The input flags come first: `-fflags`
/// at its fixed place, with the low-latency flags exactly when the stream is
/// copied as it is (`copies_fast`); then `-i` and the ingest. The codec
/// options follow the input: `-c copy` for a plain copy, else H.264 with the
/// configured preset and CRF. A burn-in filter, when there is one, comes
/// right after the codec options as `-vf` and the filter. The output comes
/// last, right after `-f flv -flvflags no_duration_filesize`.
pub proof fn lemma_push_args_order(
    input: Seq<char>,
    app: Seq<char>,
    playpath: Seq<char>,
    output: Seq<char>,
    burn: Option<Seq<char>>,
    mode: QualityMode,
    preset: Seq<char>,
    crf: u8,
)
    ensures
        ({
            let a = push_args(input, app, playpath, output, burn, mode, preset, crf);
            let fast = copies_fast(mode, burn);
            let k: int = if fast {
                6
            } else {
                2
            };
            let c: int = if fast {
                2
            } else if mode == QualityMode::Copy {
                8
            } else {
                12
            };
            &&& a[9] == "-fflags"@
            &&& a[10] == (if fast {
                "+nobuffer+discardcorrupt"@
            } else {
                "+genpts+discardcorrupt"@
            })
            &&& a[11 + k] == "-rtmp_app"@ && a[12 + k] == app
            &&& a[13 + k] == "-rtmp_playpath"@ && a[14 + k] == playpath
            &&& a[17 + k] == "-i"@
            &&& a[18 + k] == input
            &&& fast ==> a[19 + k] == "-c"@ && a[20 + k] == "copy"@
            &&& !fast ==> {
                &&& a[19 + k] == "-c:v"@
                &&& a[20 + k] == "libx264"@
                &&& a[21 + k] == "-preset"@
                &&& a[22 + k] == preset
                &&& a[23 + k] == "-crf"@
                &&& a[24 + k] == decimal(crf as nat)
            }
            &&& burn matches Some(vf) ==> a[19 + k + c] == "-vf"@ && a[20 + k + c] == vf
            &&& a.len() == 19 + k + c + (if burn is Some {
                2int
            } else {
                0
            }) + (if fast {
                4int
            } else {
                2
            }) + 5
            &&& a.last() == output
            &&& a[a.len() - 5] == "-f"@
            &&& a[a.len() - 4] == "flv"@
            &&& a[a.len() - 3] == "-flvflags"@
            &&& a[a.len() - 2] == "no_duration_filesize"@
        }),
{
}

/// Every push command, spelled out. The first nine words set up logging,
/// progress and a 15 s read timeout. A plain copy then asks for low-latency
/// input (`+nobuffer+discardcorrupt`, small probe, no analysis), copies both
/// streams with `-c copy` and turns off mux delay; any other command
/// regenerates timestamps (`+genpts+discardcorrupt`), encodes video as H.264
/// with the configured preset and CRF, copies the audio when the mode is
/// `Copy` (a burn-in forces the video encode) and otherwise encodes AAC at
/// 128k with a keyframe every 60 frames, adds the burn-in as `-vf`, and
/// shifts negative timestamps to zero. Between them, the input options pin
/// the RTMP app and play path and the tcUrl the encoder used; the output is
/// FLV without duration or size fields.
pub proof fn lemma_push_args_spelled_out(
    input: Seq<char>,
    app: Seq<char>,
    playpath: Seq<char>,
    output: Seq<char>,
    burn: Option<Seq<char>>,
    mode: QualityMode,
    preset: Seq<char>,
    crf: u8,
)
    ensures
        ({
            let a = push_args(input, app, playpath, output, burn, mode, preset, crf);
            let head = seq![
                "-hide_banner"@,
                "-loglevel"@,
                "warning"@,
                "-progress"@,
                "pipe:1"@,
                "-stats_period"@,
                "0.2"@,
                "-rw_timeout"@,
                "15000000"@,
            ];
            let inputs = seq![
                "-rtmp_live"@,
                "live"@,
                "-rtmp_app"@,
                app,
                "-rtmp_playpath"@,
                playpath,
                "-rtmp_tcurl"@,
                trim_end_matches(input, '/') + "/"@ + trim_matches(app, '/'),
                "-i"@,
                input,
            ];
            let tail = seq!["-f"@, "flv"@, "-flvflags"@, "no_duration_filesize"@, output];
            let video = seq!["-c:v"@, "libx264"@, "-preset"@, preset, "-crf"@, decimal(crf as nat)];
            let vf = match burn {
                Some(f) => seq!["-vf"@, f],
                None => Seq::<Seq<char>>::empty(),
            };
            &&& (mode == QualityMode::Copy && burn is None) ==> a == head + seq![
                "-fflags"@,
                "+nobuffer+discardcorrupt"@,
                "-probesize"@,
                "32768"@,
                "-analyzeduration"@,
                "0"@,
            ] + inputs + seq!["-c"@, "copy"@] + seq!["-muxdelay"@, "0"@, "-muxpreload"@, "0"@]
                + tail
            &&& (mode == QualityMode::Copy && burn is Some) ==> a == head + seq![
                "-fflags"@,
                "+genpts+discardcorrupt"@,
            ] + inputs + video + seq!["-c:a"@, "copy"@] + vf + seq![
                "-avoid_negative_ts"@,
                "make_zero"@,
            ] + tail
            &&& mode == QualityMode::Reencode ==> a == head + seq![
                "-fflags"@,
                "+genpts+discardcorrupt"@,
            ] + inputs + video + seq!["-c:a"@, "aac"@, "-b:a"@, "128k"@, "-g"@, "60"@] + vf
                + seq!["-avoid_negative_ts"@, "make_zero"@] + tail
        }),
{
    let a = push_args(input, app, playpath, output, burn, mode, preset, crf);
    if mode == QualityMode::Copy && burn is None {
        assert(a =~= seq![
            "-hide_banner"@,
            "-loglevel"@,
            "warning"@,
            "-progress"@,
            "pipe:1"@,
            "-stats_period"@,
            "0.2"@,
            "-rw_timeout"@,
            "15000000"@,
        ] + seq![
            "-fflags"@,
            "+nobuffer+discardcorrupt"@,
            "-probesize"@,
            "32768"@,
            "-analyzeduration"@,
            "0"@,
        ] + input_opts(input, app, playpath) + seq!["-c"@, "copy"@] + seq![
            "-muxdelay"@,
            "0"@,
            "-muxpreload"@,
            "0"@,
        ] + seq!["-f"@, "flv"@, "-flvflags"@, "no_duration_filesize"@, output]);
    }
}

/// The burn-in filter a configuration asks for.
pub open spec fn burn_for(cfg: Config, ass_path: Seq<char>) -> Option<Seq<char>> {
    if cfg.subtitles.burn_in {
        Some("ass=filename="@ + ass_path)
    } else {
        None
    }
}

/// The arguments of a pusher built from the configuration.
pub open spec fn config_push_args(
    cfg: Config,
    output: Seq<char>,
    ass_path: Seq<char>,
    published: Option<PublishedStream>,
) -> Seq<Seq<char>> {
    push_args(
        ingest_input(cfg),
        play_app(cfg, published),
        play_path(cfg, published),
        output,
        burn_for(cfg, ass_path),
        cfg.quality.mode,
        cfg.quality.preset@,
        cfg.quality.crf,
    )
}

impl PusherSpec {
    /// The burn-in filter as plain text.
    pub open spec fn burn_view(&self) -> Option<Seq<char>> {
        opt_view(self.burn_filter)
    }

    /// The argument list that `args` builds.
    pub open spec fn arg_list(&self) -> Seq<Seq<char>> {
        push_args(
            self.input@,
            self.rtmp_app@,
            self.rtmp_playpath@,
            self.output@,
            self.burn_view(),
            self.mode,
            self.preset@,
            self.crf,
        )
    }

    pub fn from_config(cfg: &Config, output: String, ass_path: &str) -> (r: Self)
        ensures
            r.input@ == ingest_input(*cfg),
            r.rtmp_app@ == play_app(*cfg, None),
            r.rtmp_playpath@ == play_path(*cfg, None),
            r.output@ == output@,
            r.burn_view() == (if cfg.subtitles.burn_in {
                Some("ass=filename="@ + ass_path@)
            } else {
                None
            }),
            r.mode == cfg.quality.mode,
            r.preset@ == cfg.quality.preset@,
            r.crf == cfg.quality.crf,
    {
        Self::from_published(cfg, output, ass_path, None)
    }

    pub fn from_published(
        cfg: &Config,
        output: String,
        ass_path: &str,
        published: Option<&PublishedStream>,
    ) -> (r: Self)
        ensures
            r.input@ == ingest_input(*cfg),
            r.rtmp_app@ == play_app(
                *cfg,
                match published {
                    Some(p) => Some(*p),
                    None => None,
                },
            ),
            r.rtmp_playpath@ == play_path(
                *cfg,
                match published {
                    Some(p) => Some(*p),
                    None => None,
                },
            ),
            r.output@ == output@,
            r.burn_view() == (if cfg.subtitles.burn_in {
                Some("ass=filename="@ + ass_path@)
            } else {
                None
            }),
            r.mode == cfg.quality.mode,
            r.preset@ == cfg.quality.preset@,
            r.crf == cfg.quality.crf,
    {
        let app = match published {
            Some(p) => p.app.clone(),
            None => trim_matches_string(cfg.ingest.app.as_str(), '/'),
        };
        let playpath = match published {
            Some(p) => p.stream_key.clone(),
            None => trim_matches_string(cfg.ingest.stream_key.as_str(), '/'),
        };
        let (host, port) = cfg.ingest_host_port();
        let mut input = "rtmp://".to_string();
        input.append(host.as_str());
        input.append(":");
        input.append(decimal_string(port as u64).as_str());
        Self {
            input,
            rtmp_app: app,
            rtmp_playpath: playpath,
            output,
            burn_filter: build_burn_filter_if_needed(ass_path, cfg.subtitles.burn_in),
            mode: cfg.quality.mode,
            preset: cfg.quality.preset.clone(),
            crf: cfg.quality.crf,
        }
    }

    /// argv after the ffmpeg binary. Reconnect flags sit immediately before `-f flv <url>`.
    pub fn args(&self) -> (r: Vec<String>)
        ensures
            views(r@) == self.arg_list(),
    {
        let fast = match self.mode {
            QualityMode::Copy => self.burn_filter.is_none(),
            QualityMode::Reencode => false,
        };
        let mut args: Vec<String> = Vec::new();
        push_text(&mut args, "-hide_banner");
        push_text(&mut args, "-loglevel");
        push_text(&mut args, "warning");
        push_text(&mut args, "-progress");
        push_text(&mut args, "pipe:1");
        push_text(&mut args, "-stats_period");
        push_text(&mut args, "0.2");
        push_text(&mut args, "-rw_timeout");
        push_text(&mut args, "15000000");
        if fast {
            // Copy path: don't analyze or invent timestamps. That work is per
            // destination and dominates CPU on a 2K ingest.
            push_text(&mut args, "-fflags");
            push_text(&mut args, "+nobuffer+discardcorrupt");
            push_text(&mut args, "-probesize");
            push_text(&mut args, "32768");
            push_text(&mut args, "-analyzeduration");
            push_text(&mut args, "0");
        } else {
            push_text(&mut args, "-fflags");
            push_text(&mut args, "+genpts+discardcorrupt");
        }
        let input =
            rtmp_input_opts(self.input.as_str(), self.rtmp_app.as_str(), self.rtmp_playpath.as_str());
        push_all(&mut args, &input);
        let tail = self.codec_and_output(fast);
        push_all(&mut args, &tail);
        assert(views(args@) =~= self.arg_list());
        args
    }

    /// The codec, filter and muxer part of the argument list.
    fn codec_and_output(&self, fast: bool) -> (r: Vec<String>)
        requires
            fast == copies_fast(self.mode, self.burn_view()),
        ensures
            views(r@) == self.arg_list().subrange(
                (if fast { 15int } else { 11int }) + 10,
                self.arg_list().len() as int,
            ),
    {
        let mut args: Vec<String> = Vec::new();
        let crf = decimal_string(self.crf as u64);
        if fast {
            push_text(&mut args, "-c");
            push_text(&mut args, "copy");
        } else if self.mode == QualityMode::Copy {
            // Burn-in requires a video encode; copy audio.
            push_text(&mut args, "-c:v");
            push_text(&mut args, "libx264");
            push_text(&mut args, "-preset");
            push_text(&mut args, self.preset.as_str());
            push_text(&mut args, "-crf");
            push_text(&mut args, crf.as_str());
            push_text(&mut args, "-c:a");
            push_text(&mut args, "copy");
        } else {
            push_text(&mut args, "-c:v");
            push_text(&mut args, "libx264");
            push_text(&mut args, "-preset");
            push_text(&mut args, self.preset.as_str());
            push_text(&mut args, "-crf");
            push_text(&mut args, crf.as_str());
            push_text(&mut args, "-c:a");
            push_text(&mut args, "aac");
            push_text(&mut args, "-b:a");
            push_text(&mut args, "128k");
            push_text(&mut args, "-g");
            push_text(&mut args, "60");
        }
        if let Some(vf) = &self.burn_filter {
            push_text(&mut args, "-vf");
            push_text(&mut args, vf.as_str());
        }
        // Do not pass -reconnect: ffmpeg would keep the dest socket while OBS
        // restarts, then a new pusher would hit the same ingest (conflicting streams).
        if fast {
            push_text(&mut args, "-muxdelay");
            push_text(&mut args, "0");
            push_text(&mut args, "-muxpreload");
            push_text(&mut args, "0");
        } else {
            push_text(&mut args, "-avoid_negative_ts");
            push_text(&mut args, "make_zero");
        }
        push_text(&mut args, "-f");
        push_text(&mut args, "flv");
        push_text(&mut args, "-flvflags");
        push_text(&mut args, "no_duration_filesize");
        push_text(&mut args, self.output.as_str());
        assert(views(args@) =~= self.arg_list().subrange(
            (if fast { 15int } else { 11int }) + 10,
            self.arg_list().len() as int,
        ));
        args
    }
}

/// The larger of two numbers.
pub open spec fn at_least(x: nat, lo: nat) -> nat {
    if x < lo {
        lo
    } else {
        x
    }
}

/// The `-vf` chain that sizes the waiting video.
pub open spec fn standby_filter(cfg: Config) -> Seq<char> {
    "scale="@ + decimal(at_least(cfg.standby.width as nat, 16)) + ":"@ + decimal(
        at_least(cfg.standby.height as nat, 16),
    ) + ":flags=fast_bilinear,fps="@ + decimal(at_least(cfg.standby.fps as nat, 1))
        + ",format=yuv420p"@
}

/// The inputs of the waiting video: the looping clip, then the looping audio
/// bed or generated silence.
pub open spec fn standby_inputs(video: Seq<char>, audio: Option<Seq<char>>) -> Seq<Seq<char>> {
    seq![
        "-hide_banner"@,
        "-loglevel"@,
        "warning"@,
        "-progress"@,
        "pipe:1"@,
        "-stats_period"@,
        "0.2"@,
        "-re"@,
        "-stream_loop"@,
        "-1"@,
        "-i"@,
        video,
    ] + match audio {
        Some(a) => seq!["-re"@, "-stream_loop"@, "-1"@, "-i"@, a],
        None => seq!["-f"@, "lavfi"@, "-i"@, "anullsrc=channel_layout=stereo:sample_rate=48000"@],
    }
}

/// The encode of the waiting video: live-shaped H.264 + AAC.
pub open spec fn standby_encode(cfg: Config) -> Seq<Seq<char>> {
    let g = at_least(2 * at_least(cfg.standby.fps as nat, 1), 2);
    seq![
        "-map"@,
        "0:v:0"@,
        "-map"@,
        "1:a:0"@,
        "-vf"@,
        standby_filter(cfg),
        "-c:v"@,
        "libx264"@,
        "-preset"@,
        cfg.quality.preset@,
        "-tune"@,
        "zerolatency"@,
        "-crf"@,
        decimal(cfg.quality.crf as nat),
        "-profile:v"@,
        "main"@,
        "-pix_fmt"@,
        "yuv420p"@,
        "-bf"@,
        "0"@,
        "-g"@,
        decimal(g),
        "-c:a"@,
        "aac"@,
        "-ar"@,
        "48000"@,
        "-ac"@,
        "2"@,
        "-b:a"@,
        "128k"@,
    ]
}

/// The FLV muxer tail.
pub open spec fn flv_output(output: Seq<char>) -> Seq<Seq<char>> {
    seq!["-f"@, "flv"@, "-flvflags"@, "no_duration_filesize"@, output]
}

/// Arguments that loop the waiting video to one destination.
pub open spec fn standby_arg_list(
    cfg: Config,
    video: Seq<char>,
    audio: Option<Seq<char>>,
    output: Seq<char>,
) -> Seq<Seq<char>> {
    standby_inputs(video, audio) + standby_encode(cfg) + flv_output(output)
}

/// The shape of every waiting-video command. The looping clip is the first
/// input; the looping audio bed, when there is one, is the second (each read
/// in real time with `-re`), else generated silence. The `-vf` chain sizes
/// the picture to at least 16 by 16 at a rate of at least one frame a second,
/// and the keyframe interval is two seconds of frames. The output comes last,
/// right after `-f flv -flvflags no_duration_filesize`.
pub proof fn lemma_standby_args_shape(
    cfg: Config,
    video: Seq<char>,
    audio: Option<Seq<char>>,
    output: Seq<char>,
)
    ensures
        ({
            let a = standby_arg_list(cfg, video, audio, output);
            let w = at_least(cfg.standby.width as nat, 16);
            let h = at_least(cfg.standby.height as nat, 16);
            let r = at_least(cfg.standby.fps as nat, 1);
            let b: int = if audio is Some {
                17
            } else {
                16
            };
            &&& a[7] == "-re"@
            &&& a[10] == "-i"@ && a[11] == video
            &&& audio matches Some(p) ==> a[12] == "-re"@ && a[15] == "-i"@ && a[16] == p
            &&& audio is None ==> a[12] == "-f"@ && a[13] == "lavfi"@ && a[14] == "-i"@
            &&& a[b + 4] == "-vf"@
            &&& a[b + 5] == "scale="@ + decimal(w) + ":"@ + decimal(h)
                + ":flags=fast_bilinear,fps="@ + decimal(r) + ",format=yuv420p"@
            &&& a[b + 20] == "-g"@ && a[b + 21] == decimal(2 * r)
            &&& a.len() == b + 30 + 5
            &&& a.last() == output
            &&& a[a.len() - 5] == "-f"@
            &&& a[a.len() - 4] == "flv"@
            &&& a[a.len() - 3] == "-flvflags"@
            &&& a[a.len() - 2] == "no_duration_filesize"@
        }),
{
}

/// Every waiting-video command, spelled out. After the logging and progress
/// words, the clip is read in real time and looped forever as the first
/// input; the audio bed, when there is one, likewise as the second, else
/// stereo 48 kHz silence is generated. The picture is scaled to the
/// configured size (at least 16 by 16) at the configured rate (at least one
/// frame a second) and encoded as zero-latency H.264 main profile with the
/// configured preset and CRF, no B-frames and a keyframe every two seconds of
/// frames; the sound as stereo 48 kHz AAC at 128k. The output is FLV without
/// duration or size fields.
pub proof fn lemma_standby_args_spelled_out(
    cfg: Config,
    video: Seq<char>,
    audio: Option<Seq<char>>,
    output: Seq<char>,
)
    ensures
        ({
            let a = standby_arg_list(cfg, video, audio, output);
            let w: nat = if cfg.standby.width < 16 {
                16
            } else {
                cfg.standby.width as nat
            };
            let h: nat = if cfg.standby.height < 16 {
                16
            } else {
                cfg.standby.height as nat
            };
            let r: nat = if cfg.standby.fps < 1 {
                1
            } else {
                cfg.standby.fps as nat
            };
            let second = match audio {
                Some(p) => seq!["-re"@, "-stream_loop"@, "-1"@, "-i"@, p],
                None => seq![
                    "-f"@,
                    "lavfi"@,
                    "-i"@,
                    "anullsrc=channel_layout=stereo:sample_rate=48000"@,
                ],
            };
            a == seq![
                "-hide_banner"@,
                "-loglevel"@,
                "warning"@,
                "-progress"@,
                "pipe:1"@,
                "-stats_period"@,
                "0.2"@,
                "-re"@,
                "-stream_loop"@,
                "-1"@,
                "-i"@,
                video,
            ] + second + seq![
                "-map"@,
                "0:v:0"@,
                "-map"@,
                "1:a:0"@,
                "-vf"@,
                "scale="@ + decimal(w) + ":"@ + decimal(h) + ":flags=fast_bilinear,fps="@ + decimal(r)
                    + ",format=yuv420p"@,
                "-c:v"@,
                "libx264"@,
                "-preset"@,
                cfg.quality.preset@,
                "-tune"@,
                "zerolatency"@,
                "-crf"@,
                decimal(cfg.quality.crf as nat),
                "-profile:v"@,
                "main"@,
                "-pix_fmt"@,
                "yuv420p"@,
                "-bf"@,
                "0"@,
                "-g"@,
                decimal(2 * r),
                "-c:a"@,
                "aac"@,
                "-ar"@,
                "48000"@,
                "-ac"@,
                "2"@,
                "-b:a"@,
                "128k"@,
            ] + seq!["-f"@, "flv"@, "-flvflags"@, "no_duration_filesize"@, output]
        }),
{
}

fn standby_inputs_exec(video: &str, audio: Option<&str>) -> (r: Vec<String>)
    ensures
        views(r@) == standby_inputs(video@, opt_text(audio)),
{
    let mut args: Vec<String> = Vec::new();
    push_text(&mut args, "-hide_banner");
    push_text(&mut args, "-loglevel");
    push_text(&mut args, "warning");
    push_text(&mut args, "-progress");
    push_text(&mut args, "pipe:1");
    push_text(&mut args, "-stats_period");
    push_text(&mut args, "0.2");
    push_text(&mut args, "-re");
    push_text(&mut args, "-stream_loop");
    push_text(&mut args, "-1");
    push_text(&mut args, "-i");
    push_text(&mut args, video);
    match audio {
        Some(a) => {
            push_text(&mut args, "-re");
            push_text(&mut args, "-stream_loop");
            push_text(&mut args, "-1");
            push_text(&mut args, "-i");
            push_text(&mut args, a);
        },
        None => {
            push_text(&mut args, "-f");
            push_text(&mut args, "lavfi");
            push_text(&mut args, "-i");
            push_text(&mut args, "anullsrc=channel_layout=stereo:sample_rate=48000");
        },
    }
    assert(views(args@) =~= standby_inputs(video@, opt_text(audio)));
    args
}

fn standby_encode_exec(cfg: &Config) -> (r: Vec<String>)
    requires
        cfg.standby.fps <= 0x7fff_ffff,
    ensures
        views(r@) == standby_encode(*cfg),
{
    let w = if cfg.standby.width < 16 {
        16
    } else {
        cfg.standby.width
    };
    let h = if cfg.standby.height < 16 {
        16
    } else {
        cfg.standby.height
    };
    let fps = if cfg.standby.fps < 1 {
        1
    } else {
        cfg.standby.fps
    };
    let g = if fps * 2 < 2 {
        2
    } else {
        fps * 2
    };
    let mut vf = "scale=".to_string();
    vf.append(decimal_string(w as u64).as_str());
    vf.append(":");
    vf.append(decimal_string(h as u64).as_str());
    vf.append(":flags=fast_bilinear,fps=");
    vf.append(decimal_string(fps as u64).as_str());
    vf.append(",format=yuv420p");
    let mut args: Vec<String> = Vec::new();
    push_text(&mut args, "-map");
    push_text(&mut args, "0:v:0");
    push_text(&mut args, "-map");
    push_text(&mut args, "1:a:0");
    push_text(&mut args, "-vf");
    push_text(&mut args, vf.as_str());
    push_text(&mut args, "-c:v");
    push_text(&mut args, "libx264");
    push_text(&mut args, "-preset");
    push_text(&mut args, cfg.quality.preset.as_str());
    push_text(&mut args, "-tune");
    push_text(&mut args, "zerolatency");
    push_text(&mut args, "-crf");
    push_text(&mut args, decimal_string(cfg.quality.crf as u64).as_str());
    push_text(&mut args, "-profile:v");
    push_text(&mut args, "main");
    push_text(&mut args, "-pix_fmt");
    push_text(&mut args, "yuv420p");
    push_text(&mut args, "-bf");
    push_text(&mut args, "0");
    push_text(&mut args, "-g");
    push_text(&mut args, decimal_string(g as u64).as_str());
    push_text(&mut args, "-c:a");
    push_text(&mut args, "aac");
    push_text(&mut args, "-ar");
    push_text(&mut args, "48000");
    push_text(&mut args, "-ac");
    push_text(&mut args, "2");
    push_text(&mut args, "-b:a");
    push_text(&mut args, "128k");
    assert(views(args@) =~= standby_encode(*cfg));
    args
}

/// The view of an optional string slice.
pub open spec fn opt_text(o: Option<&str>) -> Option<Seq<char>> {
    match o {
        Some(s) => Some(s@),
        None => None,
    }
}

/// Loop a local slate to a dest. Video is ping-pong or otherwise already looping;
/// we re-encode to the configured size/fps so dests get a live-shaped H.264+AAC.
pub fn standby_args(cfg: &Config, video: &str, audio: Option<&str>, output: &str) -> (r: Vec<String>)
    requires
        cfg.standby.fps <= 0x7fff_ffff,
    ensures
        views(r@) == standby_arg_list(*cfg, video@, opt_text(audio), output@),
{
    let mut args = standby_inputs_exec(video, audio);
    let enc = standby_encode_exec(cfg);
    push_all(&mut args, &enc);
    push_text(&mut args, "-f");
    push_text(&mut args, "flv");
    push_text(&mut args, "-flvflags");
    push_text(&mut args, "no_duration_filesize");
    push_text(&mut args, output);
    assert(views(args@) =~= standby_arg_list(*cfg, video@, opt_text(audio), output@));
    args
}

/// Whether the tee muxer needs a backslash before `c`.
pub open spec fn tee_special(c: char) -> bool {
    c == '\\' || c == ':' || c == '|' || c == '[' || c == ']'
}

/// `s` with every tee-special character escaped by a backslash.
pub open spec fn tee_escaped(s: Seq<char>) -> Seq<char>
    decreases s.len(),
{
    if s.len() == 0 {
        s
    } else {
        tee_escaped(s.drop_last()) + (if tee_special(s.last()) {
            seq!['\\', s.last()]
        } else {
            seq![s.last()]
        })
    }
}

fn tee_escape(s: &str) -> (r: String)
    ensures
        r@ == tee_escaped(s@),
{
    let v = chars_of(s);
    let mut out = String::new();
    let mut i: usize = 0;
    while i < v.len()
        invariant
            i <= v.len(),
            v@ == s@,
            out@ == tee_escaped(v@.subrange(0, i as int)),
        decreases v.len() - i,
    {
        let c = v[i];
        if c == '\\' || c == ':' || c == '|' || c == '[' || c == ']' {
            out.push('\\');
        }
        out.push(c);
        assert(v@.subrange(0, i + 1).drop_last() =~= v@.subrange(0, i as int));
        i = i + 1;
        assert(out@ =~= tee_escaped(v@.subrange(0, i as int)));
    }
    assert(v@.subrange(0, v.len() as int) =~= v@);
    out
}

/// One tee target: FLV muxer options, then the escaped URL.
pub open spec fn tee_target(url: Seq<char>) -> Seq<char> {
    "[f=flv:flvflags=no_duration_filesize:onfail=ignore]"@ + tee_escaped(url)
}

/// Arguments for the waiting video to all destinations at once: one encode,
/// fanned out by the tee muxer (a single destination gets a plain FLV output).
pub open spec fn standby_tee_arg_list(
    cfg: Config,
    video: Seq<char>,
    audio: Option<Seq<char>>,
    outputs: Seq<Seq<char>>,
) -> Seq<Seq<char>> {
    if outputs.len() <= 1 {
        standby_arg_list(
            cfg,
            video,
            audio,
            if outputs.len() == 1 {
                outputs[0]
            } else {
                "pipe:1"@
            },
        )
    } else {
        standby_inputs(video, audio) + standby_encode(cfg) + seq![
            "-f"@,
            "tee"@,
            join_with(outputs.map_values(|u: Seq<char>| tee_target(u)), "|"@),
        ]
    }
}

/// The tee escape of one character: `\`, `:`, `|`, `[` and `]` get a
/// backslash in front, every other character stands as it is.
pub proof fn lemma_tee_escape_char(c: char)
    ensures
        tee_escaped(seq![c]) == (if c == '\\' || c == ':' || c == '|' || c == '[' || c == ']' {
            seq!['\\', c]
        } else {
            seq![c]
        }),
{
    assert(seq![c].drop_last() =~= Seq::<char>::empty());
    assert(seq![c].last() == c);
    assert(tee_escaped(Seq::<char>::empty()) == Seq::<char>::empty());
    assert(Seq::<char>::empty() + seq!['\\', c] =~= seq!['\\', c]);
    assert(Seq::<char>::empty() + seq![c] =~= seq![c]);
}

/// Escaping for the tee muxer goes character by character: the escape of
/// two texts one after the other is the escape of the first, then of the
/// second.
pub proof fn lemma_tee_escape_concat(a: Seq<char>, b: Seq<char>)
    ensures
        tee_escaped(a + b) == tee_escaped(a) + tee_escaped(b),
    decreases b.len(),
{
    if b.len() == 0 {
        assert(a + b =~= a);
        assert(tee_escaped(a) + tee_escaped(b) =~= tee_escaped(a));
    } else {
        assert((a + b).drop_last() =~= a + b.drop_last());
        assert((a + b).last() == b.last());
        lemma_tee_escape_concat(a, b.drop_last());
    }
}

/// The waiting video to several destinations is the one-destination command
/// with its FLV output swapped for the tee muxer, whose targets are the
/// destinations in order, each as FLV without duration or size fields that
/// is dropped on failure, joined by `|`. One destination gets the plain
/// command; none gets it with the output on standard output.
pub proof fn lemma_standby_tee_shape(
    cfg: Config,
    video: Seq<char>,
    audio: Option<Seq<char>>,
    outputs: Seq<Seq<char>>,
)
    ensures
        outputs.len() == 1 ==> standby_tee_arg_list(cfg, video, audio, outputs) == standby_arg_list(
            cfg,
            video,
            audio,
            outputs[0],
        ),
        outputs.len() == 0 ==> standby_tee_arg_list(cfg, video, audio, outputs) == standby_arg_list(
            cfg,
            video,
            audio,
            "pipe:1"@,
        ),
        outputs.len() >= 2 ==> {
            let one = standby_arg_list(cfg, video, audio, "pipe:1"@);
            standby_tee_arg_list(cfg, video, audio, outputs) == one.subrange(0, one.len() - 5)
                + seq![
                "-f"@,
                "tee"@,
                join_with(
                    outputs.map_values(
                        |u: Seq<char>| "[f=flv:flvflags=no_duration_filesize:onfail=ignore]"@ + tee_escaped(u),
                    ),
                    "|"@,
                ),
            ]
        },
{
    if outputs.len() >= 2 {
        let one = standby_arg_list(cfg, video, audio, "pipe:1"@);
        assert(one.subrange(0, one.len() - 5) =~= standby_inputs(video, audio) + standby_encode(cfg));
        assert(outputs.map_values(|u: Seq<char>| tee_target(u)) =~= outputs.map_values(
            |u: Seq<char>| "[f=flv:flvflags=no_duration_filesize:onfail=ignore]"@ + tee_escaped(u),
        ));
    }
}

/// The capture for captions, spelled out: quiet logging, an 8 s read
/// timeout and `seconds` of audio from the ingest (with the same app, play
/// path and tcUrl pinning as a pusher), written as mono 16 kHz to `wav`,
/// overwriting it.
pub proof fn lemma_asr_args_spelled_out(
    cfg: Config,
    published: Option<PublishedStream>,
    wav: Seq<char>,
    seconds: u64,
)
    ensures
        ({
            let input = ingest_input(cfg);
            let app = play_app(cfg, published);
            asr_arg_list(cfg, published, wav, seconds) == seq![
                "-hide_banner"@,
                "-loglevel"@,
                "error"@,
                "-rw_timeout"@,
                "8000000"@,
                "-t"@,
                decimal(seconds as nat),
                "-rtmp_live"@,
                "live"@,
                "-rtmp_app"@,
                app,
                "-rtmp_playpath"@,
                play_path(cfg, published),
                "-rtmp_tcurl"@,
                trim_end_matches(input, '/') + "/"@ + trim_matches(app, '/'),
                "-i"@,
                input,
                "-ac"@,
                "1"@,
                "-ar"@,
                "16000"@,
                "-y"@,
                wav,
            ]
        }),
{
    let input = ingest_input(cfg);
    let app = play_app(cfg, published);
    assert(asr_arg_list(cfg, published, wav, seconds) =~= seq![
        "-hide_banner"@,
        "-loglevel"@,
        "error"@,
        "-rw_timeout"@,
        "8000000"@,
        "-t"@,
        decimal(seconds as nat),
        "-rtmp_live"@,
        "live"@,
        "-rtmp_app"@,
        app,
        "-rtmp_playpath"@,
        play_path(cfg, published),
        "-rtmp_tcurl"@,
        trim_end_matches(input, '/') + "/"@ + trim_matches(app, '/'),
        "-i"@,
        input,
        "-ac"@,
        "1"@,
        "-ar"@,
        "16000"@,
        "-y"@,
        wav,
    ]);
}


/// Index of the last `-f` in an argument list.
fn rposition_format(args: &Vec<String>) -> (r: Option<usize>)
    ensures
        match r {
            Some(j) => j < args.len() && args@[j as int]@ == "-f"@ && forall|k: int|
                j < k < args.len() ==> args@[k]@ != "-f"@,
            None => forall|k: int| 0 <= k < args.len() ==> args@[k]@ != "-f"@,
        },
{
    let mut j = args.len();
    while j > 0
        invariant
            j <= args.len(),
            forall|k: int| j <= k < args.len() ==> args@[k]@ != "-f"@,
        decreases j,
    {
        if crate::text::str_eq(args[j - 1].as_str(), "-f") {
            return Some(j - 1);
        }
        j = j - 1;
    }
    None
}

/// One x264 encode, fanned out with the tee muxer. `onfail=ignore` so one
/// destination dropping does not kill the others.
pub fn standby_tee_args(cfg: &Config, video: &str, audio: Option<&str>, outputs: &[String]) -> (r:
    Vec<String>)
    requires
        cfg.standby.fps <= 0x7fff_ffff,
    ensures
        views(r@) == standby_tee_arg_list(*cfg, video@, opt_text(audio), views(outputs@)),
{
    if outputs.len() <= 1 {
        let out: &str = if outputs.len() == 1 {
            outputs[0].as_str()
        } else {
            "pipe:1"
        };
        return standby_args(cfg, video, audio, out);
    }
    let mut args = standby_args(cfg, video, audio, "unused");
    let ghost base = views(args@);
    // Drop the single-file muxer tail; replace with tee.
    let f = rposition_format(&args);
    proof {
        reveal_strlit("-f");
        reveal_strlit("flv");
        reveal_strlit("-flvflags");
        reveal_strlit("no_duration_filesize");
        reveal_strlit("unused");
        let n = base.len() as int;
        assert(base[n - 5] == "-f"@);
        assert(base[n - 4] == "flv"@);
        assert(base[n - 3] == "-flvflags"@);
        assert(base[n - 2] == "no_duration_filesize"@);
        assert(base[n - 1] == "unused"@);
        assert("flv"@ != "-f"@);
        assert("-flvflags"@ != "-f"@);
        assert("no_duration_filesize"@ != "-f"@);
        assert("unused"@ != "-f"@);
        assert(args@[n - 5]@ == "-f"@);
    }
    let f = match f {
        Some(f) => f,
        None => {
            proof {
                assert(args@[args.len() - 5]@ == "-f"@);
            }
            return args;
        },
    };
    assert(f == args.len() - 5);
    args.truncate(f);
    assert(views(args@) =~= base.subrange(0, f as int));
    assert(base.subrange(0, f as int) =~= standby_inputs(video@, opt_text(audio)) + standby_encode(
        *cfg,
    ));
    let ghost head = views(args@);
    let mut targets: Vec<String> = Vec::new();
    let mut i: usize = 0;
    while i < outputs.len()
        invariant
            i <= outputs.len(),
            views(targets@) == views(outputs@).subrange(0, i as int).map_values(
                |u: Seq<char>| tee_target(u),
            ),
        decreases outputs.len() - i,
    {
        let mut t = "[f=flv:flvflags=no_duration_filesize:onfail=ignore]".to_string();
        t.append(tee_escape(outputs[i].as_str()).as_str());
        let ghost before = targets@;
        assert(t@ == tee_target(outputs@[i as int]@));
        targets.push(t);
        assert(views(targets@) =~= views(before).push(tee_target(outputs@[i as int]@)));
        assert(views(targets@) =~= views(outputs@).subrange(0, i + 1).map_values(
            |u: Seq<char>| tee_target(u),
        ));
        i = i + 1;
    }
    assert(views(outputs@).subrange(0, outputs.len() as int) =~= views(outputs@));
    let spec = join_strings(&targets, "|");
    assert(spec@ == join_with(views(outputs@).map_values(|u: Seq<char>| tee_target(u)), "|"@));
    push_text(&mut args, "-f");
    push_text(&mut args, "tee");
    let ghost before = views(args@);
    args.push(spec);
    assert(views(args@) =~= before.push(spec@));
    assert(views(args@) =~= head + seq!["-f"@, "tee"@, spec@]);
    assert(views(args@) =~= standby_tee_arg_list(*cfg, video@, opt_text(audio), views(outputs@)));
    args
}

/// Whether a URL is an RTMP(S) URL, in any letter case.
pub fn is_rtmp_url(url: &str) -> (b: bool)
    ensures
        b == is_rtmp_like(url@),
{
    rtmp_like(url)
}

/// Arguments that pull `seconds` of mono 16 kHz audio from the ingest into `wav`.
pub open spec fn asr_arg_list(
    cfg: Config,
    published: Option<PublishedStream>,
    wav: Seq<char>,
    seconds: u64,
) -> Seq<Seq<char>> {
    seq![
        "-hide_banner"@,
        "-loglevel"@,
        "error"@,
        "-rw_timeout"@,
        "8000000"@,
        "-t"@,
        decimal(seconds as nat),
    ] + input_opts(ingest_input(cfg), play_app(cfg, published), play_path(cfg, published))
        + seq!["-ac"@, "1"@, "-ar"@, "16000"@, "-y"@, wav]
}

pub fn asr_extract_args(
    cfg: &Config,
    published: Option<&PublishedStream>,
    wav: &str,
    seconds: u64,
) -> (r: Vec<String>)
    ensures
        views(r@) == asr_arg_list(
            *cfg,
            match published {
                Some(p) => Some(*p),
                None => None,
            },
            wav@,
            seconds,
        ),
{
    let spec = PusherSpec::from_published(cfg, String::new(), "", published);
    let mut args: Vec<String> = Vec::new();
    push_text(&mut args, "-hide_banner");
    push_text(&mut args, "-loglevel");
    push_text(&mut args, "error");
    push_text(&mut args, "-rw_timeout");
    push_text(&mut args, "8000000");
    push_text(&mut args, "-t");
    push_text(&mut args, decimal_string(seconds).as_str());
    let input = rtmp_input_opts(spec.input.as_str(), spec.rtmp_app.as_str(), spec.rtmp_playpath.as_str());
    push_all(&mut args, &input);
    push_text(&mut args, "-ac");
    push_text(&mut args, "1");
    push_text(&mut args, "-ar");
    push_text(&mut args, "16000");
    push_text(&mut args, "-y");
    push_text(&mut args, wav);
    assert(views(args@) =~= asr_arg_list(
        *cfg,
        match published {
            Some(p) => Some(*p),
            None => None,
        },
        wav@,
        seconds,
    ));
    args
}

/// `w` stands in `s` at `i` as a whole word: whitespace or an end on both sides.
pub open spec fn word_at(s: Seq<char>, w: Seq<char>, i: int) -> bool {
    &&& occurs_at(s, w, i)
    &&& (i == 0 || is_ws(s[i - 1]))
    &&& (i + w.len() == s.len() || is_ws(s[i + w.len()]))
}

pub open spec fn has_word(s: Seq<char>, w: Seq<char>) -> bool {
    exists|i: int| word_at(s, w, i)
}

/// An ffmpeg filter listing names a filter that can burn in subtitles: some
/// line has `ass` or `subtitles` as one of its whitespace-separated columns.
pub open spec fn lists_burnin_filter(listing: Seq<char>) -> bool {
    has_word(listing, "ass"@) || has_word(listing, "subtitles"@)
}

fn word_present(s: &Vec<char>, w: &Vec<char>) -> (b: bool)
    requires
        w.len() > 0,
    ensures
        b == has_word(s@, w@),
{
    if w.len() > s.len() {
        proof {
            assert forall|i: int| !word_at(s@, w@, i) by {}
        }
        return false;
    }
    let last = s.len() - w.len();
    let mut i: usize = 0;
    while i <= last
        invariant
            last == s.len() - w.len(),
            w.len() > 0,
            i <= last + 1,
            forall|k: int| 0 <= k < i ==> !word_at(s@, w@, k),
        decreases last + 1 - i,
    {
        if occurs_at_exec(s, w, i) {
            let left = i == 0 || is_ws_char(s[i - 1]);
            let right = i + w.len() == s.len() || is_ws_char(s[i + w.len()]);
            if left && right {
                assert(word_at(s@, w@, i as int));
                return true;
            }
        }
        i = i + 1;
    }
    proof {
        assert forall|k: int| !word_at(s@, w@, k) by {
            if k >= i {
                assert(!occurs_at(s@, w@, k));
            }
        }
    }
    false
}

/// Whether ffmpeg's `-filters` output lists a subtitle burn-in filter.
pub fn filters_have_burnin(listing: &str) -> (b: bool)
    ensures
        b == lists_burnin_filter(listing@),
{
    proof {
        reveal_strlit("ass");
        reveal_strlit("subtitles");
    }
    let s = chars_of(listing);
    let ass = chars_of("ass");
    let subtitles = chars_of("subtitles");
    word_present(&s, &ass) || word_present(&s, &subtitles)
}

/// How running `ffmpeg -version` went.
#[derive(Debug, Clone)]
pub enum ProbeOutcome {
    /// It ran; whether it succeeded, and what it printed.
    Ran { success: bool, stdout: String, stderr: String },
    /// It could not be started.
    NotFound { error: String },
}

/// The first line of `text`, or `fallback` when there is none.
pub open spec fn first_line_or(text: Seq<char>, fallback: Seq<char>) -> Seq<char> {
    if lines_of(text).len() > 0 {
        lines_of(text)[0]
    } else {
        fallback
    }
}

/// What the startup probe of the ffmpeg at `bin` reports.
pub open spec fn probe_report(bin: Seq<char>, outcome: ProbeOutcome) -> Result<Seq<char>, Seq<char>> {
    match outcome {
        ProbeOutcome::Ran { success, stdout, stderr } => if success {
            Ok(bin + " ("@ + first_line_or(stdout@, "ffmpeg"@) + ")"@)
        } else {
            Err("ffmpeg at "@ + bin + " failed: "@ + stderr@)
        },
        ProbeOutcome::NotFound { error } => Err("ffmpeg not found at "@ + bin + ": "@ + error@),
    }
}

/// The ffmpeg binary and its version line, or why it is unusable.
pub fn probe_summary(bin: &str, outcome: &ProbeOutcome) -> (r: Result<String, String>)
    ensures
        match r {
            Ok(s) => probe_report(bin@, *outcome) == Ok::<Seq<char>, Seq<char>>(s@),
            Err(e) => probe_report(bin@, *outcome) == Err::<Seq<char>, Seq<char>>(e@),
        },
{
    match outcome {
        ProbeOutcome::Ran { success, stdout, stderr } => {
            if *success {
                let ls = lines(stdout.as_str());
                let mut s = bin.to_string();
                s.append(" (");
                if ls.len() > 0 {
                    s.append(ls[0].as_str());
                } else {
                    s.append("ffmpeg");
                }
                s.append(")");
                Ok(s)
            } else {
                let mut s = "ffmpeg at ".to_string();
                s.append(bin);
                s.append(" failed: ");
                s.append(stderr.as_str());
                Err(s)
            }
        },
        ProbeOutcome::NotFound { error } => {
            let mut s = "ffmpeg not found at ".to_string();
            s.append(bin);
            s.append(": ");
            s.append(error.as_str());
            Err(s)
        },
    }
}

} // verus!
