//! What `validate` refuses to call ready, and the ffmpeg line it shows.
use vstd::prelude::*;
use vstd::string::*;

use crate::config::{bool_string, bool_text, destination_views, opt_str, Config};
use crate::ffmpeg::{config_push_args, PusherSpec};
use crate::paths::{checked_absent, first_present, join_path, parent_of, path_join, path_parent};
use crate::pusher::sidecar_paths;
use crate::redact::{redact_cmd, shown_command};
use crate::paths::opt_view;
use crate::text::{
    decimal, decimal_string, is_blank, join_with, pad_right, pad_right_string, push_text, trim,
    trim_string, views,
};

verus! {

/// The check said "yes" for some string spelling `p`.
pub open spec fn checked_present<F: Fn(String) -> bool>(is_file: F, p: Seq<char>) -> bool {
    exists|s: String| s@ == p && call_ensures(is_file, (s,), true)
}

/// How the whisper model was looked for: the path as written, then beside
/// the config file; `found` is what the checks answered.
pub open spec fn model_lookup<F: Fn(String) -> bool>(
    is_file: F,
    config_path: Seq<char>,
    model: Seq<char>,
    found: bool,
) -> bool {
    if found {
        checked_present(is_file, model) || (checked_absent(is_file, model) && match path_parent(
            config_path,
        ) {
            Some(d) => checked_present(is_file, path_join(d, model)),
            None => false,
        })
    } else {
        checked_absent(is_file, model) && match path_parent(config_path) {
            Some(d) => checked_absent(is_file, path_join(d, model)),
            None => true,
        }
    }
}

/// Whether the whisper model is a file, as written or beside the config file.
pub fn model_exists<F: Fn(String) -> bool>(config_path: &str, model: &str, is_file: &F) -> (b: bool)
    requires
        forall|s: String| is_file.requires((s,)),
    ensures
        model_lookup(*is_file, config_path@, model@, b),
{
    let m = model.to_string();
    let probe = m.clone();
    if is_file(probe) {
        return true;
    }
    assert(checked_absent(*is_file, model@));
    match parent_of(config_path) {
        Some(dir) => {
            let p = join_path(dir.as_str(), model);
            let probe = p.clone();
            let r = is_file(probe);
            if r {
                assert(checked_present(*is_file, path_join(dir@, model@)));
            } else {
                assert(checked_absent(*is_file, path_join(dir@, model@)));
            }
            r
        },
        None => false,
    }
}

/// The empty-key problem of one platform, if it is on with no key.
pub open spec fn key_problem(name: Seq<char>, platform: Option<(bool, Seq<char>)>) -> Seq<
    Seq<char>,
> {
    match platform {
        Some((true, key)) if trim(key).len() == 0 => seq![name + " is enabled but stream_key is empty"@],
        _ => Seq::<Seq<char>>::empty(),
    }
}

/// The problems of a configuration, given what the file checks found.
pub open spec fn problem_list(cfg: Config, video_found: bool, model_found: bool) -> Seq<Seq<char>> {
    let model = trim(cfg.subtitles.whisper_model@);
    key_problem("youtube"@, cfg.youtube_switch()) + key_problem("x"@, cfg.x_switch()) + key_problem(
        "twitch"@,
        cfg.twitch_switch(),
    ) + (if cfg.standby.enabled && !video_found {
        seq!["standby is enabled but the video file was not found: "@ + cfg.standby.video@]
    } else {
        Seq::<Seq<char>>::empty()
    }) + (if !cfg.subtitles.enabled {
        Seq::<Seq<char>>::empty()
    } else if model.len() == 0 {
        seq!["subtitles are enabled but whisper_model is empty"@]
    } else if !model_found {
        seq!["subtitles are enabled but the whisper model was not found: "@ + model]
    } else {
        Seq::<Seq<char>>::empty()
    })
}

fn note_empty_key(problems: &mut Vec<String>, name: &str, platform: Option<(bool, &str)>)
    ensures
        views(final(problems)@) == views(old(problems)@) + key_problem(
            name@,
            match platform {
                Some((e, k)) => Some((e, k@)),
                None => None,
            },
        ),
{
    if let Some((true, key)) = platform {
        if is_blank(key) {
            let mut m = name.to_string();
            m.append(" is enabled but stream_key is empty");
            let ghost before = problems@;
            problems.push(m);
            assert(views(problems@) =~= views(before).push(m@));
            return;
        }
    }
    assert(views(problems@) =~= views(problems@) + Seq::<Seq<char>>::empty());
}

/// The problems after the key problems: the video one, then the model one.
pub open spec fn file_problems(cfg: Config, video_found: bool, model_found: bool) -> Seq<Seq<char>> {
    let model = trim(cfg.subtitles.whisper_model@);
    (if cfg.standby.enabled && !video_found {
        seq!["standby is enabled but the video file was not found: "@ + cfg.standby.video@]
    } else {
        Seq::<Seq<char>>::empty()
    }) + (if !cfg.subtitles.enabled {
        Seq::<Seq<char>>::empty()
    } else if model.len() == 0 {
        seq!["subtitles are enabled but whisper_model is empty"@]
    } else if !model_found {
        seq!["subtitles are enabled but the whisper model was not found: "@ + model]
    } else {
        Seq::<Seq<char>>::empty()
    })
}

fn push_model_problem<F: Fn(String) -> bool>(
    problems: &mut Vec<String>,
    cfg: &Config,
    config_path: &str,
    is_file: &F,
) -> (found: bool)
    requires
        forall|s: String| is_file.requires((s,)),
    ensures
        cfg.subtitles.enabled && trim(cfg.subtitles.whisper_model@).len() > 0 ==> model_lookup(
            *is_file,
            config_path@,
            trim(cfg.subtitles.whisper_model@),
            found,
        ),
        views(final(problems)@) == views(old(problems)@) + file_problems(*cfg, true, found),
{
    let ghost before = views(problems@);
    let mut found = true;
    if cfg.subtitles.enabled {
        let model = trim_string(cfg.subtitles.whisper_model.as_str());
        if model.as_str().is_empty() {
            push_text(problems, "subtitles are enabled but whisper_model is empty");
        } else {
            found = model_exists(config_path, model.as_str(), is_file);
            if !found {
                let mut m = "subtitles are enabled but the whisper model was not found: ".to_string();
                m.append(model.as_str());
                push_text(problems, m.as_str());
            }
        }
    }
    assert(views(problems@) =~= before + file_problems(*cfg, true, found));
    found
}

/// `found` are the problems of `cfg`, with the waiting video and the whisper
/// model looked up as `video` and `model_found` record.
pub open spec fn problems_found<F: Fn(String) -> bool>(
    cfg: Config,
    config_path: Seq<char>,
    exe_path: Option<Seq<char>>,
    is_file: F,
    video: Option<String>,
    model_found: bool,
    found: Seq<String>,
) -> bool {
    &&& (cfg.standby.enabled ==> first_present(
        cfg.standby.video_candidates(config_path, exe_path),
        is_file,
        video,
    ))
    &&& (cfg.subtitles.enabled && trim(cfg.subtitles.whisper_model@).len() > 0 ==> model_lookup(
        is_file,
        config_path,
        trim(cfg.subtitles.whisper_model@),
        model_found,
    ))
    &&& views(found) == problem_list(cfg, video is Some, model_found)
}

/// Config problems `validate` should refuse to call ready.
/// Does not look at whether ffmpeg itself is installed. Files are looked for
/// with `is_file`; `exe_path` is the running binary, if known.
pub fn problems<F: Fn(String) -> bool>(
    cfg: &Config,
    config_path: &str,
    exe_path: Option<&str>,
    is_file: &F,
) -> (r: Vec<String>)
    requires
        forall|s: String| is_file.requires((s,)),
    ensures
        exists|video: Option<String>, model_found: bool|
            #[trigger] problems_found(*cfg, config_path@, opt_str(exe_path), *is_file, video, model_found, r@),
{
    let mut problems: Vec<String> = Vec::new();
    let yt = match &cfg.platforms.youtube {
        Some(p) => Some((p.enabled, p.stream_key.as_str())),
        None => None,
    };
    note_empty_key(&mut problems, "youtube", yt);
    let xp = match &cfg.platforms.x {
        Some(p) => Some((p.enabled, p.stream_key.as_str())),
        None => None,
    };
    note_empty_key(&mut problems, "x", xp);
    let tw = match &cfg.platforms.twitch {
        Some(p) => Some((p.enabled, p.stream_key.as_str())),
        None => None,
    };
    note_empty_key(&mut problems, "twitch", tw);
    let video = if cfg.standby.enabled {
        cfg.standby.resolve_video(config_path, exe_path, is_file)
    } else {
        None
    };
    if cfg.standby.enabled && video.is_none() {
        let mut m = "standby is enabled but the video file was not found: ".to_string();
        m.append(cfg.standby.video.as_str());
        push_text(&mut problems, m.as_str());
    }
    let model_found = push_model_problem(&mut problems, cfg, config_path, is_file);
    proof {
        assert(views(problems@) =~= problem_list(*cfg, video is Some, model_found));
        assert(cfg.standby.enabled ==> first_present(
            cfg.standby.video_candidates(config_path@, opt_str(exe_path)),
            *is_file,
            video,
        ));
        assert(problems_found(
            *cfg,
            config_path@,
            opt_str(exe_path),
            *is_file,
            video,
            model_found,
            problems@,
        ));
    }
    problems
}

/// ffmpeg command for one destination, with the stream key hidden.
/// `bin` is the ffmpeg binary as it would be run.
pub fn masked_ffmpeg_line(cfg: &Config, output: &str, bin: &str) -> (r: String)
    ensures
        r@ == shown_command(
            bin@,
            config_push_args(*cfg, output@, "echochamber_live.ass"@, None),
        ),
{
    let (_, ass) = sidecar_paths();
    let spec = PusherSpec::from_config(cfg, output.to_string(), ass.as_str());
    let args = spec.args();
    redact_cmd(bin, args.as_slice())
}

/// What `validate` found out besides the configuration itself.
#[derive(Debug)]
pub struct Findings {
    /// The ffmpeg probe: the binary and its version line, or why it failed.
    pub probe: Result<String, String>,
    /// Whether ffmpeg lists a subtitle burn-in filter.
    pub burn_in_filter: bool,
    pub ffmpeg_bin: String,
    pub whisper_bin: String,
    /// Whether the whisper model was found.
    pub model_found: bool,
    /// Where the waiting video and its audio were found, if they were.
    pub video: Option<String>,
    pub audio: Option<String>,
}

/// How to get an ffmpeg with the burn-in filter.
pub const BURN_IN_HINT: &'static str = "  hint: stock Homebrew ffmpeg often lacks libass.\n  brew tap homebrew-ffmpeg/ffmpeg && brew install homebrew-ffmpeg/ffmpeg/ffmpeg\n  then: export ECHOCHAMBER_FFMPEG_BIN=$(brew --prefix homebrew-ffmpeg/ffmpeg/ffmpeg)/bin/ffmpeg";

/// Where `validate` sends the command it shows when no platform is configured.
pub const MOCK_OUTPUT: &'static str = "/tmp/echochamber-mock.flv";

pub open spec fn probe_lines(probe: Result<String, String>) -> Seq<Seq<char>> {
    match probe {
        Ok(s) => seq!["ffmpeg             "@ + s@],
        Err(e) => seq!["ffmpeg             ERROR: "@ + e@],
    }
}

pub open spec fn burn_lines(cfg: Config, f: Findings) -> Seq<Seq<char>> {
    seq![
        "ffmpeg burn-in     "@ + (if f.burn_in_filter {
            "yes"@
        } else {
            "NO ass/subtitles filter"@
        }) + " ("@ + f.ffmpeg_bin@ + ")"@,
    ] + (if cfg.subtitles.burn_in && !f.burn_in_filter {
        seq![BURN_IN_HINT@]
    } else {
        Seq::<Seq<char>>::empty()
    })
}

pub open spec fn whisper_lines(cfg: Config, f: Findings) -> Seq<Seq<char>> {
    let model = trim(cfg.subtitles.whisper_model@);
    if !cfg.subtitles.enabled {
        Seq::<Seq<char>>::empty()
    } else {
        seq![
            "whisper-cli        "@ + f.whisper_bin@,
            if model.len() == 0 {
                "whisper model      (not set)"@
            } else if f.model_found {
                "whisper model      "@ + model
            } else {
                "whisper model      MISSING "@ + model
            },
        ]
    }
}

pub open spec fn standby_lines(cfg: Config, f: Findings) -> Seq<Seq<char>> {
    let sb = cfg.standby;
    if !sb.enabled {
        Seq::<Seq<char>>::empty()
    } else {
        seq![
            match opt_view(f.video) {
                Some(p) => "standby video      "@ + p,
                None => "standby video      MISSING "@ + sb.video@,
            },
        ] + (if trim(sb.audio@).len() == 0 {
            Seq::<Seq<char>>::empty()
        } else {
            seq![
                match opt_view(f.audio) {
                    Some(p) => "standby audio      "@ + p,
                    None => "standby audio      MISSING "@ + sb.audio@ + " (silence)"@,
                },
            ]
        }) + seq![
            "standby encode     "@ + decimal(sb.width as nat) + "x"@ + decimal(sb.height as nat)
                + " @ "@ + decimal(sb.fps as nat) + " fps after_first_publish="@ + bool_text(
                sb.after_first_publish,
            ),
        ]
    }
}

pub open spec fn platform_lines(cfg: Config) -> Seq<Seq<char>> {
    if cfg.destinations().len() == 0 {
        seq!["platforms          none"@]
    } else {
        seq!["platforms          "@ + decimal(cfg.destinations().len())]
    }
}

/// The shown command for one output.
pub open spec fn shown_push(cfg: Config, bin: Seq<char>, output: Seq<char>) -> Seq<char> {
    shown_command(bin, config_push_args(cfg, output, "echochamber_live.ass"@, None))
}

pub open spec fn command_lines(cfg: Config, f: Findings, verbose: bool) -> Seq<Seq<char>> {
    let d = cfg.destinations();
    if !verbose {
        Seq::<Seq<char>>::empty()
    } else {
        seq!["\nffmpeg commands (stream keys hidden):"@] + (if d.len() == 0 {
            seq!["  mock     "@ + shown_push(cfg, f.ffmpeg_bin@, MOCK_OUTPUT@)]
        } else {
            Seq::<Seq<char>>::empty()
        }) + d.map_values(
            |e: (Seq<char>, Seq<char>)|
                "  "@ + pad_right(e.0, 8) + " "@ + shown_push(cfg, f.ffmpeg_bin@, e.1),
        )
    }
}

/// All the problems: the configuration's, then ffmpeg's if its probe failed.
pub open spec fn all_problems(problems: Seq<Seq<char>>, f: Findings) -> Seq<Seq<char>> {
    match f.probe {
        Ok(_) => problems,
        Err(e) => problems.push("ffmpeg: "@ + e@),
    }
}

pub open spec fn verdict_lines(problems: Seq<Seq<char>>) -> Seq<Seq<char>> {
    if problems.len() == 0 {
        seq!["\nready."@]
    } else {
        seq![""@] + problems.map_values(|p: Seq<char>| "problem: "@ + p)
    }
}

/// The lines `validate` prints, in order.
pub open spec fn report_lines(cfg: Config, problems: Seq<Seq<char>>, f: Findings, verbose: bool) -> Seq<
    Seq<char>,
> {
    seq![join_with(cfg.summary_lines(), "\n"@), Seq::<char>::empty()] + probe_lines(f.probe)
        + burn_lines(cfg, f) + whisper_lines(cfg, f) + standby_lines(cfg, f) + platform_lines(cfg)
        + command_lines(cfg, f, verbose) + verdict_lines(all_problems(problems, f))
}

/// Ok when nothing is wrong, else the count of problems as `validate` words it.
pub open spec fn verdict(problems: Seq<Seq<char>>, f: Findings) -> Result<(), Seq<char>> {
    let all = all_problems(problems, f);
    if all.len() == 0 {
        Ok(())
    } else {
        Err(decimal(all.len()) + " problem(s); not ready"@)
    }
}

fn push_line(out: &mut Vec<String>, line: String)
    ensures
        views(final(out)@) == views(old(out)@).push(line@),
{
    let ghost before = views(out@);
    out.push(line);
    assert(views(out@) =~= before.push(line@));
}

fn concat(a: &str, b: &str) -> (r: String)
    ensures
        r@ == a@ + b@,
{
    let mut s = a.to_string();
    s.append(b);
    s
}

fn add_standby_lines(out: &mut Vec<String>, cfg: &Config, f: &Findings)
    ensures
        views(final(out)@) == views(old(out)@) + standby_lines(*cfg, *f),
{
    let ghost before = views(out@);
    let sb = &cfg.standby;
    if !sb.enabled {
        assert(views(out@) =~= before + standby_lines(*cfg, *f));
        return;
    }
    match &f.video {
        Some(p) => push_line(out, concat("standby video      ", p.as_str())),
        None => push_line(out, concat("standby video      MISSING ", sb.video.as_str())),
    }
    if !is_blank(sb.audio.as_str()) {
        match &f.audio {
            Some(p) => push_line(out, concat("standby audio      ", p.as_str())),
            None => {
                let mut m = concat("standby audio      MISSING ", sb.audio.as_str());
                m.append(" (silence)");
                push_line(out, m);
            },
        }
    }
    let mut m = concat("standby encode     ", decimal_string(sb.width as u64).as_str());
    m.append("x");
    m.append(decimal_string(sb.height as u64).as_str());
    m.append(" @ ");
    m.append(decimal_string(sb.fps as u64).as_str());
    m.append(" fps after_first_publish=");
    m.append(bool_string(sb.after_first_publish).as_str());
    push_line(out, m);
    assert(views(out@) =~= before + standby_lines(*cfg, *f));
}

fn add_command_lines(out: &mut Vec<String>, cfg: &Config, f: &Findings, verbose: bool)
    ensures
        views(final(out)@) == views(old(out)@) + command_lines(*cfg, *f, verbose),
{
    let ghost before = views(out@);
    if !verbose {
        assert(views(out@) =~= before + command_lines(*cfg, *f, verbose));
        return;
    }
    push_text(out, "\nffmpeg commands (stream keys hidden):");
    let dests = cfg.configured_destinations();
    let ghost d = cfg.destinations();
    assert(dests@.len() == destination_views(dests@).len());
    if dests.len() == 0 {
        push_line(out, concat("  mock     ", masked_ffmpeg_line(cfg, MOCK_OUTPUT, f.ffmpeg_bin.as_str()).as_str()));
    }
    let ghost head = views(out@);
    assert(head == before + seq!["\nffmpeg commands (stream keys hidden):"@] + (if d.len() == 0 {
        seq!["  mock     "@ + shown_push(*cfg, f.ffmpeg_bin@, MOCK_OUTPUT@)]
    } else {
        Seq::<Seq<char>>::empty()
    }));
    let mut i: usize = 0;
    while i < dests.len()
        invariant
            i <= dests.len(),
            d == destination_views(dests@),
            views(out@) == head + d.subrange(0, i as int).map_values(
                |e: (Seq<char>, Seq<char>)|
                    "  "@ + pad_right(e.0, 8) + " "@ + shown_push(*cfg, f.ffmpeg_bin@, e.1),
            ),
        decreases dests.len() - i,
    {
        let mut m = concat("  ", pad_right_string(dests[i].name.as_str(), 8).as_str());
        m.append(" ");
        m.append(masked_ffmpeg_line(cfg, dests[i].url.as_str(), f.ffmpeg_bin.as_str()).as_str());
        push_line(out, m);
        assert(d[i as int] == (dests@[i as int].name@, dests@[i as int].url@));
        assert(d.subrange(0, i + 1) =~= d.subrange(0, i as int).push(d[i as int]));
        i = i + 1;
    }
    assert(d.subrange(0, i as int) =~= d);
    assert(views(out@) =~= before + command_lines(*cfg, *f, verbose));
}

fn add_probe_and_burn_lines(out: &mut Vec<String>, cfg: &Config, f: &Findings)
    ensures
        views(final(out)@) == views(old(out)@) + probe_lines(f.probe) + burn_lines(*cfg, *f),
{
    let ghost before = views(out@);
    match &f.probe {
        Ok(s) => push_line(out, concat("ffmpeg             ", s.as_str())),
        Err(e) => push_line(out, concat("ffmpeg             ERROR: ", e.as_str())),
    }
    let ghost upto_probe = views(out@);
    assert(upto_probe =~= before + probe_lines(f.probe));
    let mut burn = concat(
        "ffmpeg burn-in     ",
        if f.burn_in_filter {
            "yes"
        } else {
            "NO ass/subtitles filter"
        },
    );
    burn.append(" (");
    burn.append(f.ffmpeg_bin.as_str());
    burn.append(")");
    push_line(out, burn);
    if cfg.subtitles.burn_in && !f.burn_in_filter {
        push_text(out, BURN_IN_HINT);
    }
    assert(views(out@) =~= upto_probe + burn_lines(*cfg, *f));
}

fn add_whisper_lines(out: &mut Vec<String>, cfg: &Config, f: &Findings)
    ensures
        views(final(out)@) == views(old(out)@) + whisper_lines(*cfg, *f),
{
    let ghost before = views(out@);
    if cfg.subtitles.enabled {
        push_line(out, concat("whisper-cli        ", f.whisper_bin.as_str()));
        let model = trim_string(cfg.subtitles.whisper_model.as_str());
        if model.as_str().is_empty() {
            push_text(out, "whisper model      (not set)");
        } else if f.model_found {
            push_line(out, concat("whisper model      ", model.as_str()));
        } else {
            push_line(out, concat("whisper model      MISSING ", model.as_str()));
        }
    }
    assert(views(out@) =~= before + whisper_lines(*cfg, *f));
}

fn add_platform_lines(out: &mut Vec<String>, cfg: &Config)
    ensures
        views(final(out)@) == views(old(out)@) + platform_lines(*cfg),
{
    let ghost before = views(out@);
    let dests = cfg.configured_destinations();
    assert(dests@.len() == destination_views(dests@).len());
    if dests.len() == 0 {
        push_text(out, "platforms          none");
    } else {
        push_line(out, concat("platforms          ", decimal_string(dests.len() as u64).as_str()));
    }
    assert(views(out@) =~= before + platform_lines(*cfg));
}

fn add_verdict_lines(out: &mut Vec<String>, all: &Vec<String>) -> (r: Result<(), String>)
    ensures
        views(final(out)@) == views(old(out)@) + verdict_lines(views(all@)),
        match r {
            Ok(()) => all.len() == 0,
            Err(e) => all.len() > 0 && e@ == decimal(all.len() as nat) + " problem(s); not ready"@,
        },
{
    proof {
        reveal_strlit("");
    }
    let ghost before = views(out@);
    let ghost every = views(all@);
    if all.len() == 0 {
        push_text(out, "\nready.");
        assert(views(out@) =~= before + verdict_lines(every));
        return Ok(());
    }
    push_text(out, "");
    let ghost blank = views(out@);
    let mut j: usize = 0;
    while j < all.len()
        invariant
            j <= all.len(),
            every == views(all@),
            views(out@) == blank + every.subrange(0, j as int).map_values(
                |p: Seq<char>| "problem: "@ + p,
            ),
        decreases all.len() - j,
    {
        push_line(out, concat("problem: ", all[j].as_str()));
        assert(every.subrange(0, j + 1) =~= every.subrange(0, j as int).push(every[j as int]));
        j = j + 1;
    }
    assert(every.subrange(0, j as int) =~= every);
    assert(views(out@) =~= before + verdict_lines(every));
    Err(concat(decimal_string(all.len() as u64).as_str(), " problem(s); not ready"))
}

fn with_probe_problem(problems: &Vec<String>, f: &Findings) -> (all: Vec<String>)
    ensures
        views(all@) == all_problems(views(problems@), *f),
{
    let mut all: Vec<String> = Vec::new();
    assert(views(all@) =~= views(problems@).subrange(0, 0));
    let mut k: usize = 0;
    while k < problems.len()
        invariant
            k <= problems.len(),
            views(all@) == views(problems@).subrange(0, k as int),
        decreases problems.len() - k,
    {
        push_line(&mut all, problems[k].clone());
        assert(views(problems@).subrange(0, k + 1) =~= views(problems@).subrange(0, k as int).push(
            problems@[k as int]@,
        ));
        k = k + 1;
    }
    assert(views(problems@).subrange(0, k as int) =~= views(problems@));
    match &f.probe {
        Ok(_) => {},
        Err(e) => push_line(&mut all, concat("ffmpeg: ", e.as_str())),
    }
    all
}

/// What `validate` prints and whether it calls the relay ready, from the
/// configuration, its problems, and what was found out about the binaries
/// and files. The lines are printed one by one.
pub fn readiness_report(cfg: &Config, problems: &Vec<String>, f: &Findings, verbose: bool) -> (r: (
    Vec<String>,
    Result<(), String>,
))
    ensures
        views(r.0@) == report_lines(*cfg, views(problems@), *f, verbose),
        match r.1 {
            Ok(()) => verdict(views(problems@), *f) == Ok::<(), Seq<char>>(()),
            Err(e) => verdict(views(problems@), *f) == Err::<(), Seq<char>>(e@),
        },
{
    proof {
        reveal_strlit("");
    }
    let mut out: Vec<String> = Vec::new();
    assert(views(out@) =~= Seq::<Seq<char>>::empty());
    let summary = cfg.masked_summary();
    assert(summary@ == join_with(cfg.summary_lines(), "\n"@));
    push_line(&mut out, summary);
    assert(views(out@)[0] == join_with(cfg.summary_lines(), "\n"@));
    push_text(&mut out, "");
    let ghost head = views(out@);
    assert(head.len() == 2);
    assert(head[1] == Seq::<char>::empty());
    assert(head =~= seq![join_with(cfg.summary_lines(), "\n"@), Seq::<char>::empty()]);
    add_probe_and_burn_lines(&mut out, cfg, f);
    add_whisper_lines(&mut out, cfg, f);
    add_standby_lines(&mut out, cfg, f);
    add_platform_lines(&mut out, cfg);
    add_command_lines(&mut out, cfg, f, verbose);
    let all = with_probe_problem(problems, f);
    let verdict_r = add_verdict_lines(&mut out, &all);
    assert(views(out@) =~= report_lines(*cfg, views(problems@), *f, verbose));
    (out, verdict_r)
}

/// A platform that is on with a blank key.
pub open spec fn keyless(platform: Option<(bool, Seq<char>)>) -> bool {
    match platform {
        Some((enabled, key)) => enabled && trim(key).len() == 0,
        None => false,
    }
}

/// `validate` finds no problem in a configuration exactly when no site is on
/// without a key, the waiting video (if on) was found, and captions (if on)
/// have a whisper model that was found.
pub proof fn lemma_ready_exactly_when(cfg: Config, video_found: bool, model_found: bool)
    ensures
        problem_list(cfg, video_found, model_found).len() == 0 <==> {
            &&& !keyless(cfg.youtube_switch())
            &&& !keyless(cfg.x_switch())
            &&& !keyless(cfg.twitch_switch())
            &&& (cfg.standby.enabled ==> video_found)
            &&& (cfg.subtitles.enabled ==> trim(cfg.subtitles.whisper_model@).len() > 0
                && model_found)
        },
{
    assert(key_problem("youtube"@, cfg.youtube_switch()).len() == 0 <==> !keyless(cfg.youtube_switch()));
    assert(key_problem("x"@, cfg.x_switch()).len() == 0 <==> !keyless(cfg.x_switch()));
    assert(key_problem("twitch"@, cfg.twitch_switch()).len() == 0 <==> !keyless(cfg.twitch_switch()));
}

/// The list `problems` gives is empty exactly when no site is on without a
/// key, the waiting video (if on) was found among its candidate places, and
/// captions (if on) have a whisper model that was found as written or beside
/// the config file, as the look-ups recorded in `problems_found` answered.
pub proof fn lemma_no_problems_exactly_when<F: Fn(String) -> bool>(
    cfg: Config,
    config_path: Seq<char>,
    exe_path: Option<Seq<char>>,
    is_file: F,
    video: Option<String>,
    model_found: bool,
    found: Seq<String>,
)
    requires
        problems_found(cfg, config_path, exe_path, is_file, video, model_found, found),
    ensures
        found.len() == 0 <==> {
            &&& !keyless(cfg.youtube_switch())
            &&& !keyless(cfg.x_switch())
            &&& !keyless(cfg.twitch_switch())
            &&& (cfg.standby.enabled ==> video is Some)
            &&& (cfg.subtitles.enabled ==> trim(cfg.subtitles.whisper_model@).len() > 0
                && model_found)
        },
{
    lemma_ready_exactly_when(cfg, video is Some, model_found);
    assert(views(found).len() == found.len());
}

} // verus!
