//! The decisions of the caption worker: which subtitle files it keeps, when
//! an audio chunk is worth transcribing, how whisper-cli is asked, and where
//! each chunk's cues land on the live timeline.
use vstd::prelude::*;
use vstd::string::*;

use crate::config::SubtitlesConfig;
use crate::state::AsrStatus;
use crate::subtitles::{clock_step, Cue, CueTuple, SubtitleClock, cue_views};
use crate::text::{
    ascii_lower_seq, chars_of, decimal, decimal_string, is_blank, push_text, string_of, trim,
    trim_chars, views,
};

verus! {

/// An extracted chunk smaller than this holds no usable audio.
pub const MIN_WAV_BYTES: u64 = 4000;

/// Whether an extracted chunk of `len` bytes is worth transcribing.
pub fn wav_usable(len: u64) -> (b: bool)
    ensures
        b == (len > MIN_WAV_BYTES),
{
    len > MIN_WAV_BYTES
}

/// Which subtitle files the worker keeps: `(srt, ass)`. The ASS file also
/// feeds burn-in.
pub fn wanted_writers(sidecar: bool, burn_in: bool) -> (r: (bool, bool))
    ensures
        r == (sidecar, burn_in || sidecar),
{
    (sidecar, burn_in || sidecar)
}

/// The whisper-cli language for a configured one.
pub open spec fn whisper_lang_of(lang: Seq<char>) -> Seq<char> {
    let l = ascii_lower_seq(trim(lang));
    if l == "en"@ || l == "english"@ {
        "en"@
    } else if l == "ru"@ || l == "russian"@ {
        "ru"@
    } else {
        "auto"@
    }
}

fn chars_equal(v: &Vec<char>, s: &str) -> (b: bool)
    ensures
        b == (v@ == s@),
{
    let w = string_of(v);
    crate::text::str_eq(w.as_str(), s)
}

pub fn whisper_lang(lang: &str) -> (r: String)
    ensures
        r@ == whisper_lang_of(lang@),
{
    let t = string_of(&trim_chars(lang));
    let l = crate::text::ascii_lower_chars(t.as_str());
    if chars_equal(&l, "en") || chars_equal(&l, "english") {
        "en".to_string()
    } else if chars_equal(&l, "ru") || chars_equal(&l, "russian") {
        "ru".to_string()
    } else {
        "auto".to_string()
    }
}

/// Arguments for whisper-cli: transcribe `wav` with the configured model and
/// language into `out_base.srt`.
pub open spec fn whisper_arg_list(
    model: Seq<char>,
    wav: Seq<char>,
    lang: Seq<char>,
    out_base: Seq<char>,
) -> Seq<Seq<char>> {
    seq![
        "-m"@,
        model,
        "-f"@,
        wav,
        "-l"@,
        whisper_lang_of(lang),
        "-nt"@,
        "-np"@,
        "-osrt"@,
        "-of"@,
        out_base,
    ]
}

/// The whisper-cli arguments, or the error when no model is configured.
pub fn whisper_args(subs: &SubtitlesConfig, wav: &str, out_base: &str) -> (r: Result<
    Vec<String>,
    String,
>)
    ensures
        match r {
            Ok(v) => trim(subs.whisper_model@).len() > 0 && views(v@) == whisper_arg_list(
                subs.whisper_model@,
                wav@,
                subs.language@,
                out_base@,
            ),
            Err(e) => trim(subs.whisper_model@).len() == 0 && e@
                == "subtitles.whisper_model is empty"@,
        },
{
    if is_blank(subs.whisper_model.as_str()) {
        return Err("subtitles.whisper_model is empty".to_string());
    }
    let mut v: Vec<String> = Vec::new();
    push_text(&mut v, "-m");
    push_text(&mut v, subs.whisper_model.as_str());
    push_text(&mut v, "-f");
    push_text(&mut v, wav);
    push_text(&mut v, "-l");
    push_text(&mut v, whisper_lang(subs.language.as_str()).as_str());
    push_text(&mut v, "-nt");
    push_text(&mut v, "-np");
    push_text(&mut v, "-osrt");
    push_text(&mut v, "-of");
    push_text(&mut v, out_base);
    assert(views(v@) =~= whisper_arg_list(subs.whisper_model@, wav@, subs.language@, out_base@));
    Ok(v)
}

/// The file name of a worker's audio chunk: `echo_asr_<pid>.wav`.
pub fn wav_file_name(pid: u32) -> (r: String)
    ensures
        r@ == "echo_asr_"@ + decimal(pid as nat) + ".wav"@,
{
    let mut s = "echo_asr_".to_string();
    s.append(decimal_string(pid as u64).as_str());
    s.append(".wav");
    s
}

/// Where whisper-cli writes its SRT for an output base.
pub fn srt_output_path(out_base: &str) -> (r: String)
    ensures
        r@ == out_base@ + ".srt"@,
{
    let mut s = out_base.to_string();
    s.append(".srt");
    s
}

/// The cues of one chunk placed on the timeline: each is shifted by the
/// chunk's offset, then mapped by the clock; the clock's state runs through.
pub open spec fn placed(
    t0: Option<u64>,
    last_end: u64,
    cues: Seq<CueTuple>,
    offset: nat,
) -> (Option<u64>, u64, Seq<CueTuple>)
    decreases cues.len(),
{
    if cues.len() == 0 {
        (t0, last_end, Seq::<CueTuple>::empty())
    } else {
        let c = cues[0];
        let (t1, l1, r) = clock_step(t0, last_end, (c.0 + offset) as u64, (c.1 + offset) as u64);
        let (t2, l2, rest) = placed(t1, l1, cues.drop_first(), offset);
        (
            t2,
            l2,
            match r {
                Some((s, e)) => seq![(s, e, c.2)] + rest,
                None => rest,
            },
        )
    }
}

/// The offset of chunk `chunk_index` in milliseconds, each chunk being
/// `chunk_seconds` long.
pub open spec fn chunk_offset_ms(chunk_index: u64, chunk_seconds: u64) -> nat {
    (chunk_index * chunk_seconds * 1000) as nat
}

/// Every cue of a chunk still fits in milliseconds once shifted by `offset`.
pub open spec fn fits_after(cues: Seq<CueTuple>, offset: nat) -> bool {
    forall|i: int| 0 <= i < cues.len() ==> cues[i].0 + offset <= u64::MAX && cues[i].1 + offset
        <= u64::MAX
}

/// Shift a chunk's cues by its offset and keep those the clock accepts, in order.
pub fn place_cues(clock: &mut SubtitleClock, cues: Vec<Cue>, chunk_index: u64, chunk_seconds: u64) -> (r:
    Vec<Cue>)
    requires
        chunk_index * chunk_seconds * 1000 <= u64::MAX,
        fits_after(cue_views(cues@), chunk_offset_ms(chunk_index, chunk_seconds)),
    ensures
        placed(old(clock).t0, old(clock).last_end, cue_views(cues@), chunk_offset_ms(
            chunk_index,
            chunk_seconds,
        )) == (final(clock).t0, final(clock).last_end, cue_views(r@)),
{
    assert(chunk_index * chunk_seconds <= u64::MAX) by (nonlinear_arith)
        requires
            chunk_index * chunk_seconds * 1000 <= u64::MAX,
    ;
    let secs = chunk_index * chunk_seconds;
    let offset: u64 = secs * 1000;
    let ghost off: nat = chunk_offset_ms(chunk_index, chunk_seconds);
    assert(offset == off);
    let ghost all = cue_views(cues@);
    let ghost t0 = clock.t0;
    let ghost l0 = clock.last_end;
    let mut out: Vec<Cue> = Vec::new();
    let mut i: usize = 0;
    assert(all.subrange(0, all.len() as int) =~= all);
    assert(cue_views(out@) + placed(t0, l0, all, off).2 =~= placed(t0, l0, all, off).2);
    while i < cues.len()
        invariant
            i <= cues.len(),
            all == cue_views(cues@),
            offset == off,
            fits_after(all, off),
            ({
                let (ta, la, ra) = placed(t0, l0, all, off);
                let (tb, lb, rb) = placed(clock.t0, clock.last_end, all.subrange(i as int, all.len() as int), off);
                ta == tb && la == lb && ra == cue_views(out@) + rb
            }),
        decreases cues.len() - i,
    {
        let c = &cues[i];
        assert(all[i as int].0 == c.start && all[i as int].1 == c.end);
        let start = c.start + offset;
        let end = c.end + offset;
        let ghost rest = all.subrange(i as int, all.len() as int);
        assert(rest[0] == cue_views(cues@)[i as int]);
        assert(rest.drop_first() =~= all.subrange(i + 1, all.len() as int));
        let ghost before = cue_views(out@);
        match clock.map(start, end) {
            Some((s, e)) => {
                out.push(Cue { start: s, end: e, text: c.text.clone() });
                assert(cue_views(out@) =~= before.push((s, e, c.text@)));
            },
            None => {},
        }
        i = i + 1;
    }
    assert(all.subrange(i as int, all.len() as int) =~= Seq::<CueTuple>::empty());
    assert(cue_views(out@) =~= cue_views(out@) + Seq::<CueTuple>::empty());
    out
}

impl AsrStatus {
    /// A cue was written: one more, the latest text, and no standing error.
    pub fn record_cue(&mut self, text: String)
        requires
            old(self).cues < u64::MAX,
        ensures
            final(self).cues == old(self).cues + 1,
            final(self).last_text == Some(text),
            final(self).last_error is None,
            final(self).enabled == old(self).enabled,
    {
        self.cues = self.cues + 1;
        self.last_text = Some(text);
        self.last_error = None;
    }

    /// Transcription failed with `message`.
    pub fn record_error(&mut self, message: String)
        ensures
            final(self).last_error == Some(message),
            final(self).cues == old(self).cues,
            final(self).last_text == old(self).last_text,
            final(self).enabled == old(self).enabled,
    {
        self.last_error = Some(message);
    }
}

} // verus!
