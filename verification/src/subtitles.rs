//! Live captions as timed cues: their timeline, their SRT and ASS text, and
//! the SRT that whisper-cli writes. Times are whole milliseconds.
use vstd::prelude::*;
use vstd::string::*;

use crate::config::SubtitleStyle;
use crate::redact::{lemma_trim_ends_not_ws, lemma_trim_of_clean, vec_range};
use crate::text::{
    char_views, chars_of, contains, decimal, decimal_padded, decimal_string, find, is_blank,
    join_strings, join_with, lemma_find_is, lines, lines_of, occurs_at, pad_left, parse_u64,
    parse_u64_spec, repeat, replace, replace_string, split_at_char, split_char, str_contains,
    string_of, string_of_range, trim, trim_chars, trim_string, views,
};

verus! {

/// One caption: shown from `start` to `end` (milliseconds on the stream's timeline).
#[derive(Debug, Clone)]
pub struct Cue {
    pub start: u64,
    pub end: u64,
    pub text: String,
}

/// A cue as plain values.
pub open spec fn cue_view(c: Cue) -> (u64, u64, Seq<char>) {
    (c.start, c.end, c.text@)
}

pub open spec fn cue_views(v: Seq<Cue>) -> Seq<(u64, u64, Seq<char>)> {
    v.map_values(|c: Cue| cue_view(c))
}

/// Maps media times onto the subtitle timeline: the first cue seen anchors
/// zero, and a cue that would start before the previous one ended is dropped.
#[derive(Debug)]
pub struct SubtitleClock {
    pub t0: Option<u64>,
    pub last_end: u64,
}

impl Default for SubtitleClock {
    fn default() -> (r: Self)
        ensures
            r.t0 is None,
            r.last_end == 0,
    {
        Self { t0: None, last_end: 0 }
    }
}

/// `a - b`, or zero when `b` is larger.
pub open spec fn sat_sub(a: u64, b: u64) -> u64 {
    if a >= b {
        (a - b) as u64
    } else {
        0
    }
}

/// One step of the clock: its next state and the mapped times, if the cue is kept.
pub open spec fn clock_step(t0: Option<u64>, last_end: u64, start: u64, end: u64) -> (
    Option<u64>,
    u64,
    Option<(u64, u64)>,
) {
    if end <= start {
        (t0, last_end, None)
    } else {
        let z = match t0 {
            Some(z) => z,
            None => start,
        };
        let s = sat_sub(start, z);
        let e = sat_sub(end, z);
        if s < last_end {
            (Some(z), last_end, None)
        } else {
            (Some(z), e, Some((s, e)))
        }
    }
}

impl SubtitleClock {
    pub fn reset(&mut self)
        ensures
            final(self).t0 is None,
            final(self).last_end == 0,
    {
        *self = Self::default();
    }

    /// Anchor the first observed media timestamp as t0 and return timeline times.
    pub fn map(&mut self, start: u64, end: u64) -> (r: Option<(u64, u64)>)
        ensures
            clock_step(old(self).t0, old(self).last_end, start, end) == (
                final(self).t0,
                final(self).last_end,
                r,
            ),
    {
        if end <= start {
            return None;
        }
        let t0 = match self.t0 {
            Some(z) => z,
            None => {
                self.t0 = Some(start);
                start
            },
        };
        let s = if start >= t0 {
            start - t0
        } else {
            0
        };
        let e = if end >= t0 {
            end - t0
        } else {
            0
        };
        if s < self.last_end {
            return None;
        }
        self.last_end = e;
        Some((s, e))
    }
}

/// What a clock keeps over a run of `map` calls, with its state after them.
pub open spec fn clock_run(t0: Option<u64>, last_end: u64, calls: Seq<(u64, u64)>) -> (
    Option<u64>,
    u64,
    Seq<(u64, u64)>,
)
    decreases calls.len(),
{
    if calls.len() == 0 {
        (t0, last_end, Seq::<(u64, u64)>::empty())
    } else {
        let (t1, l1, r) = clock_step(t0, last_end, calls[0].0, calls[0].1);
        let (t2, l2, rest) = clock_run(t1, l1, calls.drop_first());
        (
            t2,
            l2,
            match r {
                Some(x) => seq![x] + rest,
                None => rest,
            },
        )
    }
}

/// A clock that has no anchor has kept nothing; one that has an anchor has
/// kept a cue, so its last end is past zero.
pub open spec fn anchored(t0: Option<u64>, last_end: u64) -> bool {
    &&& t0 is None ==> last_end == 0
    &&& t0 is Some ==> last_end > 0
}

proof fn lemma_clock_run_sorted(t0: Option<u64>, last_end: u64, calls: Seq<(u64, u64)>)
    requires
        anchored(t0, last_end),
    ensures
        ({
            let (t, l, out) = clock_run(t0, last_end, calls);
            &&& anchored(t, l)
            &&& last_end <= l
            &&& forall|i: int|
                0 <= i < out.len() ==> last_end <= #[trigger] out[i].0 && out[i].0 < out[i].1 <= l
            &&& forall|i: int, j: int| 0 <= i < j < out.len() ==> #[trigger] out[i].1 <= #[trigger] out[j].0
        }),
    decreases calls.len(),
{
    if calls.len() > 0 {
        let (t1, l1, r) = clock_step(t0, last_end, calls[0].0, calls[0].1);
        lemma_clock_run_sorted(t1, l1, calls.drop_first());
        let (t2, l2, rest) = clock_run(t1, l1, calls.drop_first());
        let out = clock_run(t0, last_end, calls).2;
        if let Some(x) = r {
            assert(out == seq![x] + rest);
            assert forall|i: int| 0 <= i < out.len() implies last_end <= #[trigger] out[i].0 && out[i].0
                < out[i].1 <= l2 by {
                if i > 0 {
                    assert(out[i] == rest[i - 1]);
                }
            }
            assert forall|i: int, j: int| 0 <= i < j < out.len() implies #[trigger] out[i].1
                <= #[trigger] out[j].0 by {
                assert(out[j] == rest[j - 1]);
                if i > 0 {
                    assert(out[i] == rest[i - 1]);
                }
            }
        }
    }
}

/// Over any run of `map` calls on a fresh or reset clock, every kept cue ends
/// after it starts, and each kept cue ends no later than any later kept cue
/// starts: the kept cues come out sorted and never overlap.
pub proof fn lemma_kept_cues_sorted(calls: Seq<(u64, u64)>)
    ensures
        ({
            let out = clock_run(None, 0, calls).2;
            &&& forall|i: int| 0 <= i < out.len() ==> #[trigger] out[i].0 < out[i].1
            &&& forall|i: int, j: int| 0 <= i < j < out.len() ==> #[trigger] out[i].1 <= #[trigger] out[j].0
        }),
{
    lemma_clock_run_sorted(None, 0, calls);
}

/// On a fresh or reset clock, the first call whose end is after its start is
/// kept, anchored at zero with its length: the calls before it are dropped
/// and leave the clock as it was.
pub proof fn lemma_first_kept_cue(calls: Seq<(u64, u64)>, k: int)
    requires
        0 <= k < calls.len(),
        calls[k].0 < calls[k].1,
        forall|j: int| 0 <= j < k ==> calls[j].1 <= calls[j].0,
    ensures
        clock_run(None, 0, calls).2.len() > 0,
        clock_run(None, 0, calls).2[0] == (0u64, (calls[k].1 - calls[k].0) as u64),
    decreases k,
{
    if k > 0 {
        assert(calls[0].1 <= calls[0].0);
        let rest = calls.drop_first();
        assert forall|j: int| 0 <= j < k - 1 implies rest[j].1 <= rest[j].0 by {
            assert(rest[j] == calls[j + 1]);
        }
        lemma_first_kept_cue(rest, k - 1);
    }
}

/// A fresh clock anchors the first cue it sees at zero and keeps its length.
pub proof fn lemma_first_cue_starts_at_zero(start: u64, end: u64)
    requires
        start < end,
    ensures
        clock_step(None, 0, start, end) == (Some(start), (end - start) as u64, Some(
            (0u64, (end - start) as u64),
        )),
{
}

/// `HH:MM:SS,mmm` (hours at least two digits).
#[verifier::opaque]
pub open spec fn srt_time(ms: u64) -> Seq<char> {
    pad_left(decimal((ms / 3_600_000) as nat), 2, '0') + ":"@ + pad_left(
        decimal(((ms % 3_600_000) / 60_000) as nat),
        2,
        '0',
    ) + ":"@ + pad_left(decimal(((ms % 60_000) / 1_000) as nat), 2, '0') + ","@ + pad_left(
        decimal((ms % 1_000) as nat),
        3,
        '0',
    )
}

pub fn srt_ts(ms: u64) -> (r: String)
    ensures
        r@ == srt_time(ms),
{
    let hours = ms / 3_600_000;
    let minutes = (ms % 3_600_000) / 60_000;
    let seconds = (ms % 60_000) / 1_000;
    let millis = ms % 1_000;
    let mut s = decimal_padded(hours, 2);
    s.append(":");
    s.append(decimal_padded(minutes, 2).as_str());
    s.append(":");
    s.append(decimal_padded(seconds, 2).as_str());
    s.append(",");
    s.append(decimal_padded(millis, 3).as_str());
    proof {
        reveal(srt_time);
    }
    s
}

/// `H:MM:SS.cc` in centiseconds.
pub open spec fn ass_time(ms: u64) -> Seq<char> {
    let cs = ms / 10;
    decimal((cs / 360_000) as nat) + ":"@ + pad_left(decimal(((cs % 360_000) / 6_000) as nat), 2, '0')
        + ":"@ + pad_left(decimal(((cs % 6_000) / 100) as nat), 2, '0') + "."@ + pad_left(
        decimal((cs % 100) as nat),
        2,
        '0',
    )
}

pub fn ass_ts(ms: u64) -> (r: String)
    ensures
        r@ == ass_time(ms),
{
    let cs_total = ms / 10;
    let hours = cs_total / 360_000;
    let minutes = (cs_total % 360_000) / 6_000;
    let seconds = (cs_total % 6_000) / 100;
    let cs = cs_total % 100;
    let mut s = decimal_string(hours);
    s.append(":");
    s.append(decimal_padded(minutes, 2).as_str());
    s.append(":");
    s.append(decimal_padded(seconds, 2).as_str());
    s.append(".");
    s.append(decimal_padded(cs, 2).as_str());
    s
}

/// One SRT entry: its index, the time range, the text, and a blank line.
pub open spec fn srt_entry_text(index: u32, c: Cue) -> Seq<char> {
    decimal(index as nat) + "\n"@ + srt_time(c.start) + " --> "@ + srt_time(c.end) + "\n"@
        + c.text@ + "\n\n"@
}
/// One SRT entry and one ASS event, spelled out: the entry is its number,
/// the `start --> end` timing line and the text, each on its own line, then
/// a blank line; the event is a layer-0 `Dialogue` of the `Default` style
/// with no name, margins or effect, its text with each line break written
/// as `\N`, on one line.
pub proof fn lemma_caption_lines_spelled_out(index: u32, c: Cue)
    ensures
        srt_entry_text(index, c) == decimal(index as nat) + "\n"@ + srt_time(c.start) + " --> "@
            + srt_time(c.end) + "\n"@ + c.text@ + "\n"@ + "\n"@,
        ass_event_text(c) == "Dialogue: 0,"@ + ass_time(c.start) + ","@ + ass_time(c.end) + ","@
            + "Default"@ + ",,0,0,0,,"@ + replace(c.text@, "\n"@, "\\N"@) + "\n"@,
{
    reveal_strlit("\n\n");
    reveal_strlit("\n");
    reveal_strlit(",Default,,0,0,0,,");
    reveal_strlit(",");
    reveal_strlit("Default");
    reveal_strlit(",,0,0,0,,");
    let a = decimal(index as nat) + "\n"@ + srt_time(c.start) + " --> "@ + srt_time(c.end) + "\n"@ + c.text@;
    assert(a + "\n\n"@ =~= a + "\n"@ + "\n"@);
    let b = "Dialogue: 0,"@ + ass_time(c.start) + ","@ + ass_time(c.end);
    let t = replace(c.text@, "\n"@, "\\N"@) + "\n"@;
    assert(b + ",Default,,0,0,0,,"@ + t =~= b + ","@ + "Default"@ + ",,0,0,0,,"@ + t);
}


/// The text an SRT writer appends for one cue.
pub fn srt_entry(index: u32, cue: &Cue) -> (r: String)
    ensures
        r@ == srt_entry_text(index, *cue),
{
    let mut s = decimal_string(index as u64);
    s.append("\n");
    s.append(srt_ts(cue.start).as_str());
    s.append(" --> ");
    s.append(srt_ts(cue.end).as_str());
    s.append("\n");
    s.append(cue.text.as_str());
    s.append("\n\n");
    s
}

/// One ASS dialogue event; line breaks in the text become `\N`.
pub open spec fn ass_event_text(c: Cue) -> Seq<char> {
    "Dialogue: 0,"@ + ass_time(c.start) + ","@ + ass_time(c.end) + ",Default,,0,0,0,,"@ + replace(
        c.text@,
        "\n"@,
        "\\N"@,
    ) + "\n"@
}

/// The text an ASS writer appends for one cue.
pub fn ass_event(cue: &Cue) -> (r: String)
    ensures
        r@ == ass_event_text(*cue),
{
    proof {
        reveal_strlit("\n");
    }
    let mut s = "Dialogue: 0,".to_string();
    s.append(ass_ts(cue.start).as_str());
    s.append(",");
    s.append(ass_ts(cue.end).as_str());
    s.append(",Default,,0,0,0,,");
    s.append(replace_string(cue.text.as_str(), "\n", "\\N").as_str());
    s.append("\n");
    s
}

/// The font size, primary colour, outline and bottom margin of a style.
pub open spec fn style_numbers(style: SubtitleStyle) -> (u64, Seq<char>, u64, u64) {
    match style {
        SubtitleStyle::Modern => (48, "&H00FFFFFF"@, 2, 40),
        SubtitleStyle::Minimal => (32, "&H00FFFFFF"@, 1, 24),
        SubtitleStyle::Broadcast => (52, "&H0000FFFF"@, 3, 60),
    }
}

/// The ASS script header for a caption style.
pub open spec fn ass_header_text(style: SubtitleStyle) -> Seq<char> {
    let (size, primary, outline, margin_v) = style_numbers(style);
    "[Script Info]\nScriptType: v4.00+\nPlayResX: 1920\nPlayResY: 1080\nWrapStyle: 0\nScaledBorderAndShadow: yes\n\n[V4+ Styles]\nFormat: Name, Fontname, Fontsize, PrimaryColour, SecondaryColour, OutlineColour, BackColour, Bold, Italic, Underline, StrikeOut, ScaleX, ScaleY, Spacing, Angle, BorderStyle, Outline, Shadow, Alignment, MarginL, MarginR, MarginV, Encoding\nStyle: Default,Arial,"@
        + decimal(size as nat) + ","@ + primary
        + ",&H000000FF,&H00000000,&H80000000,0,0,0,0,100,100,0,0,1,"@ + decimal(outline as nat)
        + ",0,2,40,40,"@ + decimal(margin_v as nat)
        + ",1\n\n[Events]\nFormat: Layer, Start, End, Style, Name, MarginL, MarginR, MarginV, Effect, Text\n"@
}
/// The ASS header of each caption style: Modern is white at size 48 with a
/// 2-pixel outline 40 pixels above the bottom; Minimal is white at size 32
/// with a 1-pixel outline 24 pixels up; Broadcast is yellow (`&H0000FFFF`)
/// at size 52 with a 3-pixel outline 60 pixels up. Everything else in the
/// header is the same for all three: a 1920x1080 script, one `Default`
/// style in Arial, bottom-centred with 40-pixel side margins.
pub proof fn lemma_ass_header_per_style()
    ensures
        ass_header_text(SubtitleStyle::Modern) == "[Script Info]\nScriptType: v4.00+\nPlayResX: 1920\nPlayResY: 1080\nWrapStyle: 0\nScaledBorderAndShadow: yes\n\n[V4+ Styles]\nFormat: Name, Fontname, Fontsize, PrimaryColour, SecondaryColour, OutlineColour, BackColour, Bold, Italic, Underline, StrikeOut, ScaleX, ScaleY, Spacing, Angle, BorderStyle, Outline, Shadow, Alignment, MarginL, MarginR, MarginV, Encoding\nStyle: Default,Arial,"@ + "48"@ + ","@ + "&H00FFFFFF"@ + ",&H000000FF,&H00000000,&H80000000,0,0,0,0,100,100,0,0,1,"@ + "2"@ + ",0,2,40,40,"@ + "40"@ + ",1\n\n[Events]\nFormat: Layer, Start, End, Style, Name, MarginL, MarginR, MarginV, Effect, Text\n"@,
        ass_header_text(SubtitleStyle::Minimal) == "[Script Info]\nScriptType: v4.00+\nPlayResX: 1920\nPlayResY: 1080\nWrapStyle: 0\nScaledBorderAndShadow: yes\n\n[V4+ Styles]\nFormat: Name, Fontname, Fontsize, PrimaryColour, SecondaryColour, OutlineColour, BackColour, Bold, Italic, Underline, StrikeOut, ScaleX, ScaleY, Spacing, Angle, BorderStyle, Outline, Shadow, Alignment, MarginL, MarginR, MarginV, Encoding\nStyle: Default,Arial,"@ + "32"@ + ","@ + "&H00FFFFFF"@ + ",&H000000FF,&H00000000,&H80000000,0,0,0,0,100,100,0,0,1,"@ + "1"@ + ",0,2,40,40,"@ + "24"@ + ",1\n\n[Events]\nFormat: Layer, Start, End, Style, Name, MarginL, MarginR, MarginV, Effect, Text\n"@,
        ass_header_text(SubtitleStyle::Broadcast) == "[Script Info]\nScriptType: v4.00+\nPlayResX: 1920\nPlayResY: 1080\nWrapStyle: 0\nScaledBorderAndShadow: yes\n\n[V4+ Styles]\nFormat: Name, Fontname, Fontsize, PrimaryColour, SecondaryColour, OutlineColour, BackColour, Bold, Italic, Underline, StrikeOut, ScaleX, ScaleY, Spacing, Angle, BorderStyle, Outline, Shadow, Alignment, MarginL, MarginR, MarginV, Encoding\nStyle: Default,Arial,"@ + "52"@ + ","@ + "&H0000FFFF"@ + ",&H000000FF,&H00000000,&H80000000,0,0,0,0,100,100,0,0,1,"@ + "3"@ + ",0,2,40,40,"@ + "60"@ + ",1\n\n[Events]\nFormat: Layer, Start, End, Style, Name, MarginL, MarginR, MarginV, Effect, Text\n"@,
{
    reveal_strlit("48");
    reveal_strlit("32");
    reveal_strlit("52");
    reveal_strlit("40");
    reveal_strlit("24");
    reveal_strlit("60");
    reveal_strlit("1");
    reveal_strlit("2");
    reveal_strlit("3");
    assert(decimal(48) =~= "48"@) by { assert(decimal(4) =~= seq!['4']); }
    assert(decimal(32) =~= "32"@) by { assert(decimal(3) =~= seq!['3']); }
    assert(decimal(52) =~= "52"@) by { assert(decimal(5) =~= seq!['5']); }
    assert(decimal(40) =~= "40"@) by { assert(decimal(4) =~= seq!['4']); }
    assert(decimal(24) =~= "24"@) by { assert(decimal(2) =~= seq!['2']); }
    assert(decimal(60) =~= "60"@) by { assert(decimal(6) =~= seq!['6']); }
    assert(decimal(1) =~= "1"@);
    assert(decimal(2) =~= "2"@);
    assert(decimal(3) =~= "3"@);
}
proof fn lemma_div_mod_is(x: nat, d: nat, q: nat, r: nat)
    requires
        d > 0,
        r < d,
        x == q * d + r,
    ensures
        x / d == q,
        x % d == r,
{
    vstd::arithmetic::div_mod::lemma_fundamental_div_mod_converse_div(x as int, d as int, q as int, r as int);
    vstd::arithmetic::div_mod::lemma_fundamental_div_mod_converse_mod(x as int, d as int, q as int, r as int);
}

/// An SRT time shows hours, minutes, seconds and milliseconds: for the one
/// way of writing `ms` as `h` hours, `m < 60` minutes, `s < 60` seconds and
/// `f < 1000` milliseconds, it is `hh:mm:ss,fff` (hours at least two digits).
pub proof fn lemma_srt_time_fields(ms: u64, h: nat, m: nat, s: nat, f: nat)
    requires
        m < 60,
        s < 60,
        f < 1000,
        h * 3_600_000 + m * 60_000 + s * 1_000 + f == ms,
    ensures
        srt_time(ms) == pad_left(decimal(h), 2, '0') + ":"@ + pad_left(decimal(m), 2, '0') + ":"@
            + pad_left(decimal(s), 2, '0') + ","@ + pad_left(decimal(f), 3, '0'),
{
    reveal(srt_time);
    let x = ms as nat;
    let r1: nat = m * 60_000 + s * 1_000 + f;
    assert(r1 < 3_600_000) by (nonlinear_arith)
        requires
            m < 60,
            s < 60,
            f < 1000,
            r1 == m * 60_000 + s * 1_000 + f,
    ;
    lemma_div_mod_is(x, 3_600_000, h, r1);
    lemma_div_mod_is(r1, 60_000, m, s * 1_000 + f);
    assert(x == (h * 60 + m) * 60_000 + (s * 1_000 + f)) by (nonlinear_arith)
        requires
            h * 3_600_000 + m * 60_000 + s * 1_000 + f == x,
    ;
    lemma_div_mod_is(x, 60_000, h * 60 + m, s * 1_000 + f);
    lemma_div_mod_is(s * 1_000 + f, 1_000, s, f);
    assert(x == ((h * 60 + m) * 60 + s) * 1_000 + f) by (nonlinear_arith)
        requires
            h * 3_600_000 + m * 60_000 + s * 1_000 + f == x,
    ;
    lemma_div_mod_is(x, 1_000, (h * 60 + m) * 60 + s, f);
}

/// An ASS time shows hours, minutes, seconds and hundredths: for the one way
/// of writing the whole hundredths in `ms` as `h` hours, `m < 60` minutes,
/// `s < 60` seconds and `c < 100` hundredths, it is `h:mm:ss.cc`.
pub proof fn lemma_ass_time_fields(ms: u64, h: nat, m: nat, s: nat, c: nat)
    requires
        m < 60,
        s < 60,
        c < 100,
        h * 360_000 + m * 6_000 + s * 100 + c == ms / 10,
    ensures
        ass_time(ms) == decimal(h) + ":"@ + pad_left(decimal(m), 2, '0') + ":"@ + pad_left(
            decimal(s),
            2,
            '0',
        ) + "."@ + pad_left(decimal(c), 2, '0'),
{
    let x = (ms / 10) as nat;
    let r1: nat = m * 6_000 + s * 100 + c;
    assert(r1 < 360_000) by (nonlinear_arith)
        requires
            m < 60,
            s < 60,
            c < 100,
            r1 == m * 6_000 + s * 100 + c,
    ;
    lemma_div_mod_is(x, 360_000, h, r1);
    lemma_div_mod_is(r1, 6_000, m, s * 100 + c);
    assert(x == (h * 60 + m) * 6_000 + (s * 100 + c)) by (nonlinear_arith)
        requires
            h * 360_000 + m * 6_000 + s * 100 + c == x,
    ;
    lemma_div_mod_is(x, 6_000, h * 60 + m, s * 100 + c);
    lemma_div_mod_is(s * 100 + c, 100, s, c);
    assert(x == ((h * 60 + m) * 60 + s) * 100 + c) by (nonlinear_arith)
        requires
            h * 360_000 + m * 6_000 + s * 100 + c == x,
    ;
    lemma_div_mod_is(x, 100, (h * 60 + m) * 60 + s, c);
}


pub fn generate_ass_header(style: SubtitleStyle) -> (r: String)
    ensures
        r@ == ass_header_text(style),
{
    let (size, primary, outline, margin_v): (u64, &str, u64, u64) = match style {
        SubtitleStyle::Modern => (48, "&H00FFFFFF", 2, 40),
        SubtitleStyle::Minimal => (32, "&H00FFFFFF", 1, 24),
        SubtitleStyle::Broadcast => (52, "&H0000FFFF", 3, 60),
    };
    let mut s = "[Script Info]\nScriptType: v4.00+\nPlayResX: 1920\nPlayResY: 1080\nWrapStyle: 0\nScaledBorderAndShadow: yes\n\n[V4+ Styles]\nFormat: Name, Fontname, Fontsize, PrimaryColour, SecondaryColour, OutlineColour, BackColour, Bold, Italic, Underline, StrikeOut, ScaleX, ScaleY, Spacing, Angle, BorderStyle, Outline, Shadow, Alignment, MarginL, MarginR, MarginV, Encoding\nStyle: Default,Arial,".to_string();
    s.append(decimal_string(size).as_str());
    s.append(",");
    s.append(primary);
    s.append(",&H000000FF,&H00000000,&H80000000,0,0,0,0,100,100,0,0,1,");
    s.append(decimal_string(outline).as_str());
    s.append(",0,2,40,40,");
    s.append(decimal_string(margin_v).as_str());
    s.append(
        ",1\n\n[Events]\nFormat: Layer, Start, End, Style, Name, MarginL, MarginR, MarginV, Effect, Text\n",
    );
    s
}

/// Bytes that a character takes in UTF-8.
pub open spec fn utf8_len(c: char) -> int {
    if (c as u32) < 0x80 {
        1
    } else if (c as u32) < 0x800 {
        2
    } else if (c as u32) < 0x10000 {
        3
    } else {
        4
    }
}

fn utf8_len_exec(c: char) -> (n: usize)
    ensures
        n == utf8_len(c),
{
    let u = c as u32;
    if u < 0x80 {
        1
    } else if u < 0x800 {
        2
    } else if u < 0x10000 {
        3
    } else {
        4
    }
}

/// Bytes that a character sequence takes in UTF-8.
pub open spec fn byte_len(s: Seq<char>) -> int
    decreases s.len(),
{
    if s.len() == 0 {
        0
    } else {
        byte_len(s.drop_last()) + utf8_len(s.last())
    }
}

proof fn lemma_byte_len_at_least_len(s: Seq<char>)
    ensures
        byte_len(s) >= s.len(),
    decreases s.len(),
{
    if s.len() > 0 {
        lemma_byte_len_at_least_len(s.drop_last());
    }
}

/// How many leading characters of `p` take exactly `n` bytes, if some do.
pub open spec fn chars_in_bytes(p: Seq<char>, n: int) -> Option<int>
    decreases p.len(),
{
    if n <= 0 {
        Some(0)
    } else if p.len() == 0 || utf8_len(p[0]) > n {
        None
    } else {
        match chars_in_bytes(p.drop_first(), n - utf8_len(p[0])) {
            Some(k) => Some(k + 1),
            None => None,
        }
    }
}

/// The fraction field of an SRT time, padded with `0` to three bytes.
pub open spec fn padded3(p: Seq<char>) -> Seq<char> {
    if byte_len(p) < 3 {
        p + repeat('0', (3 - byte_len(p)) as nat)
    } else {
        p
    }
}

/// Milliseconds from the fraction field: its first three bytes as a number,
/// `0` if they are not one; `None` where the three bytes end inside a
/// character (slicing there panics).
pub open spec fn millis_field(p: Seq<char>) -> Option<u64> {
    let q = padded3(p);
    match chars_in_bytes(q, 3) {
        None => None,
        Some(k) => Some(
            match parse_u64_spec(q.subrange(0, k)) {
                Some(v) => v,
                None => 0,
            },
        ),
    }
}

fn millis_exec(p: &Vec<char>) -> (r: Option<u64>)
    ensures
        r == millis_field(p@),
{
    let mut q: Vec<char> = vec_range(p, 0, p.len());
    assert(q@ =~= p@);
    if p.len() < 3 {
        let mut b: usize = 0;
        let mut j: usize = 0;
        while j < p.len()
            invariant
                p.len() < 3,
                j <= p.len(),
                b == byte_len(p@.subrange(0, j as int)),
                b <= 4 * j,
            decreases p.len() - j,
        {
            assert(p@.subrange(0, j + 1).drop_last() =~= p@.subrange(0, j as int));
            b = b + utf8_len_exec(p[j]);
            j = j + 1;
        }
        assert(p@.subrange(0, p.len() as int) =~= p@);
        while b < 3
            invariant
                b <= 8,
                q@ == p@ + repeat('0', (b - byte_len(p@)) as nat),
                b >= byte_len(p@),
                byte_len(p@) < 3 ==> b <= 3,
                byte_len(p@) >= 3 ==> b == byte_len(p@),
            decreases 3 - b,
        {
            q.push('0');
            b = b + 1;
            assert(q@ =~= p@ + repeat('0', (b - byte_len(p@)) as nat));
        }
        proof {
            if byte_len(p@) < 3 {
                assert(q@ =~= padded3(p@));
            } else {
                assert(q@ =~= padded3(p@));
            }
        }
    } else {
        proof {
            lemma_byte_len_at_least_len(p@);
        }
        assert(q@ =~= padded3(p@));
    }
    let mut k: usize = 0;
    let mut b: usize = 0;
    assert(q@.subrange(0, q.len() as int) =~= q@);
    while b < 3 && k < q.len()
        invariant
            k <= q.len(),
            b <= 3,
            q@ == padded3(p@),
            chars_in_bytes(q@, 3) == match chars_in_bytes(q@.subrange(k as int, q.len() as int), 3 - b) {
                Some(x) => Some(x + k),
                None => None::<int>,
            },
        decreases q.len() - k,
    {
        let l = utf8_len_exec(q[k]);
        let ghost rest = q@.subrange(k as int, q.len() as int);
        assert(rest[0] == q@[k as int]);
        if b + l > 3 {
            return None;
        }
        assert(rest.drop_first() =~= q@.subrange(k + 1, q.len() as int));
        b = b + l;
        k = k + 1;
    }
    if b < 3 {
        assert(q@.subrange(k as int, q.len() as int) =~= Seq::<char>::empty());
        return None;
    }
    let head = vec_range(&q, 0, k);
    let v = match parse_u64(&head) {
        Some(v) => v,
        None => 0,
    };
    Some(v)
}

/// The pieces of a split, as `str::split` gives at least one.
proof fn lemma_split_nonempty(s: Seq<char>, c: char)
    ensures
        split_at_char(s, c).len() >= 1,
{
    reveal(split_at_char);
}

/// An SRT time `HH:MM:SS,mmm` (`.` also separates the fraction): the inner
/// option is the parsed time; the outer is `None` where parsing panics (a
/// fraction cut inside a character, or a total beyond 64 bits).
#[verifier::opaque]
pub open spec fn srt_time_parse(s: Seq<char>) -> Option<Option<u64>> {
    let r = replace(s, ","@, "."@);
    let parts = split_at_char(r, ':');
    if parts.len() != 3 {
        Some(None)
    } else {
        match parse_u64_spec(parts[0]) {
            None => Some(None),
            Some(h) => match parse_u64_spec(parts[1]) {
                None => Some(None),
                Some(m) => {
                    let sp = split_at_char(parts[2], '.');
                    match parse_u64_spec(sp[0]) {
                        None => Some(None),
                        Some(sec) => {
                            let mo = if sp.len() > 1 {
                                millis_field(sp[1])
                            } else {
                                Some(0u64)
                            };
                            match mo {
                                None => None,
                                Some(ms) => {
                                    let total = h * 3_600_000 + m * 60_000 + sec * 1_000 + ms;
                                    if total > u64::MAX {
                                        None
                                    } else {
                                        Some(Some(total as u64))
                                    }
                                },
                            }
                        },
                    }
                },
            },
        }
    }
}

/// An SRT time, `None` where reading it would panic.
fn parse_srt_ts(s: &str) -> (r: Option<Option<u64>>)
    ensures
        r == srt_time_parse(s@),
{
    proof {
        reveal(srt_time_parse);
        reveal_strlit(",");
        reveal_strlit(".");
    }
    let r = replace_string(s, ",", ".");
    let rv = chars_of(r.as_str());
    let parts = split_char(&rv, ':');
    assert(char_views(parts@) == split_at_char(r@, ':'));
    if parts.len() != 3 {
        return Some(None);
    }
    assert(parts@[0]@ == split_at_char(r@, ':')[0]);
    assert(parts@[1]@ == split_at_char(r@, ':')[1]);
    assert(parts@[2]@ == split_at_char(r@, ':')[2]);
    let h = match parse_u64(&parts[0]) {
        Some(h) => h,
        None => return Some(None),
    };
    let m = match parse_u64(&parts[1]) {
        Some(m) => m,
        None => return Some(None),
    };
    let sp = split_char(&parts[2], '.');
    proof {
        lemma_split_nonempty(parts@[2]@, '.');
    }
    assert(sp@[0]@ == split_at_char(parts@[2]@, '.')[0]);
    let sec = match parse_u64(&sp[0]) {
        Some(x) => x,
        None => return Some(None),
    };
    let millis: u64 = if sp.len() > 1 {
        assert(sp@[1]@ == split_at_char(parts@[2]@, '.')[1]);
        match millis_exec(&sp[1]) {
            Some(x) => x,
            None => {
                return None;
            },
        }
    } else {
        0
    };
    let total = (h as u128) * 3_600_000 + (m as u128) * 60_000 + (sec as u128) * 1_000
        + (millis as u128);
    if total > u64::MAX as u128 {
        return None;
    }
    Some(Some(total as u64))
}

/// Index after the run of cue-text lines that starts at `from`: it stops at
/// a blank line or at a timing line.
pub open spec fn text_run(ls: Seq<Seq<char>>, from: int) -> int
    decreases ls.len() - from,
{
    if from < 0 || from >= ls.len() || trim(ls[from]).len() == 0 || contains(ls[from], "-->"@) {
        from
    } else {
        text_run(ls, from + 1)
    }
}

/// A cue as plain values.
pub type CueTuple = (u64, u64, Seq<char>);

/// The cue of the block whose timing line is `ls[t]` and whose text starts at
/// `from`: the cues it yields, where the next block starts, and whether
/// parsing its times panics.
pub open spec fn srt_block(ls: Seq<Seq<char>>, t: int, from: int) -> (Seq<CueTuple>, int, bool) {
    let q = text_run(ls, from);
    let next = if 0 <= q < ls.len() && trim(ls[q]).len() == 0 {
        q + 1
    } else {
        q
    };
    let timing = ls[t];
    let i = match find(timing, "-->"@) {
        Some(i) => i,
        None => 0,
    };
    let a = trim(timing.subrange(0, i));
    let b = trim(timing.subrange(i + 3, timing.len() as int));
    match (srt_time_parse(a), srt_time_parse(b)) {
        (Some(x), Some(y)) => {
            let cues = match (x, y) {
                (Some(s), Some(e)) => {
                    let txt = trim(join_with(ls.subrange(from, q), " "@));
                    if txt.len() > 0 {
                        seq![(s, e, txt)]
                    } else {
                        Seq::<CueTuple>::empty()
                    }
                },
                _ => Seq::<CueTuple>::empty(),
            };
            (cues, next, false)
        },
        _ => (Seq::<CueTuple>::empty(), next, true),
    }
}

/// One turn of the SRT reader at line `p`: the cues it yields, the line it
/// moves on to, and whether it panics. A line that is neither blank nor a
/// timing line is an index; the line after it must then be the timing line,
/// or both are skipped.
pub open spec fn srt_step(ls: Seq<Seq<char>>, p: int) -> (Seq<CueTuple>, int, bool) {
    let line = ls[p];
    if trim(line).len() == 0 {
        (Seq::<CueTuple>::empty(), p + 1, false)
    } else if contains(line, "-->"@) {
        srt_block(ls, p, p + 1)
    } else if p + 1 < ls.len() {
        if contains(ls[p + 1], "-->"@) {
            srt_block(ls, p + 1, p + 2)
        } else {
            (Seq::<CueTuple>::empty(), p + 2, false)
        }
    } else {
        (Seq::<CueTuple>::empty(), p + 1, false)
    }
}

pub proof fn lemma_text_run_bounds(ls: Seq<Seq<char>>, from: int)
    requires
        0 <= from <= ls.len(),
    ensures
        from <= text_run(ls, from) <= ls.len(),
    decreases ls.len() - from,
{
    if from < ls.len() && !(trim(ls[from]).len() == 0 || contains(ls[from], "-->"@)) {
        lemma_text_run_bounds(ls, from + 1);
    }
}

pub proof fn lemma_step_progress(ls: Seq<Seq<char>>, p: int)
    requires
        0 <= p < ls.len(),
    ensures
        p < srt_step(ls, p).1 <= ls.len(),
{
    let line = ls[p];
    if trim(line).len() == 0 {
    } else if contains(line, "-->"@) {
        lemma_text_run_bounds(ls, p + 1);
    } else if p + 1 < ls.len() {
        if contains(ls[p + 1], "-->"@) {
            lemma_text_run_bounds(ls, p + 2);
        }
    }
}

/// The cues read from line `p` on.
pub open spec fn srt_cues_from(ls: Seq<Seq<char>>, p: int) -> Seq<CueTuple>
    decreases ls.len() - p,
{
    if p < 0 || p >= ls.len() {
        Seq::<CueTuple>::empty()
    } else {
        let (c, n, _) = srt_step(ls, p);
        if p < n <= ls.len() {
            c + srt_cues_from(ls, n)
        } else {
            c
        }
    }
}

/// Reading from line `p` on panics somewhere.
pub open spec fn srt_panics_from(ls: Seq<Seq<char>>, p: int) -> bool
    decreases ls.len() - p,
{
    if p < 0 || p >= ls.len() {
        false
    } else {
        let (_, n, bad) = srt_step(ls, p);
        bad || (p < n <= ls.len() && srt_panics_from(ls, n))
    }
}

/// The cues whisper-cli's SRT text holds, in order.
pub open spec fn srt_cues(text: Seq<char>) -> Seq<CueTuple> {
    srt_cues_from(lines_of(text), 0)
}

/// Reading this SRT text panics (on a malformed time).
pub open spec fn srt_panics(text: Seq<char>) -> bool {
    srt_panics_from(lines_of(text), 0)
}

fn text_run_exec(ls: &Vec<String>, from: usize) -> (q: usize)
    requires
        from <= ls.len(),
    ensures
        q == text_run(views(ls@), from as int),
{
    let mut q = from;
    while q < ls.len() && !is_blank(ls[q].as_str()) && !str_contains(ls[q].as_str(), "-->")
        invariant
            from <= q <= ls.len(),
            text_run(views(ls@), from as int) == text_run(views(ls@), q as int),
        decreases ls.len() - q,
    {
        q = q + 1;
    }
    q
}

/// The block whose timing line is `ls[t]` and whose text starts at `from`;
/// `None` where reading its times would panic.
#[verifier::rlimit(80)]
fn read_block(ls: &Vec<String>, t: usize, from: usize) -> (r: Option<(Option<Cue>, usize)>)
    requires
        t < from <= ls.len(),
        contains(ls@[t as int]@, "-->"@),
    ensures
        ({
            let (c, n, bad) = srt_block(views(ls@), t as int, from as int);
            &&& (r is None <==> bad)
            &&& (match r {
                Some((cue, next)) => next == n && c == match cue {
                    Some(cue) => seq![cue_view(cue)],
                    None => Seq::<CueTuple>::empty(),
                },
                None => true,
            })
        }),
{
    let ghost vs = views(ls@);
    let q = text_run_exec(ls, from);
    proof {
        lemma_text_run_bounds(vs, from as int);
    }
    let next = if q < ls.len() && is_blank(ls[q].as_str()) {
        q + 1
    } else {
        q
    };
    let timing = chars_of(ls[t].as_str());
    let arrow = chars_of("-->");
    let found = crate::text::find_chars(&timing, &arrow);
    let i = match found {
        Some(i) => i,
        None => {
            proof {
                assert(contains(vs[t as int], "-->"@));
            }
            0
        },
    };
    proof {
        reveal_strlit("-->");
        crate::redact::lemma_find_occurs(timing@, arrow@);
        assert(occurs_at(timing@, arrow@, i as int));
        assert(arrow@.len() == 3);
        assert(i + 3 <= timing@.len());
    }
    assert(i + 3 <= timing.len());
    let i3: usize = i + 3;
    let a_raw = string_of_range(&timing, 0, i);
    let b_raw = string_of_range(&timing, i3, timing.len());
    let a = trim_string(a_raw.as_str());
    let b = trim_string(b_raw.as_str());
    let start = match parse_srt_ts(a.as_str()) {
        Some(x) => x,
        None => return None,
    };
    let end = match parse_srt_ts(b.as_str()) {
        Some(y) => y,
        None => return None,
    };
    match (start, end) {
        (Some(s), Some(e)) => {
            let mut texts: Vec<String> = Vec::new();
            let mut k = from;
            while k < q
                invariant
                    from <= k <= q <= ls.len(),
                    views(texts@) == views(ls@).subrange(from as int, k as int),
                decreases q - k,
            {
                let ghost before = texts@;
                let c: String = ls[k].clone();
                assert(c@ == ls@[k as int]@);
                texts.push(c);
                assert(views(texts@) =~= views(before).push(c@));
                assert(views(texts@) =~= views(ls@).subrange(from as int, k + 1));
                k = k + 1;
            }
            let joined = join_strings(&texts, " ");
            let txt = trim_string(joined.as_str());
            if txt.as_str().is_empty() {
                Some((None, next))
            } else {
                Some((Some(Cue { start: s, end: e, text: txt }), next))
            }
        },
        _ => Some((None, next)),
    }
}

/// Read an SRT produced by whisper-cli `-osrt`: its cues, or `None` where
/// the reader would panic on a malformed time.
#[verifier::rlimit(80)]
pub fn read_srt(text: &str) -> (r: Option<Vec<Cue>>)
    ensures
        r is None <==> srt_panics(text@),
        match r {
            Some(v) => cue_views(v@) == srt_cues(text@),
            None => true,
        },
{
    let ls = lines(text);
    let ghost vs = views(ls@);
    let mut cues: Vec<Cue> = Vec::new();
    let mut p: usize = 0;
    while p < ls.len()
        invariant
            p <= ls.len(),
            vs == views(ls@),
            vs == lines_of(text@),
            cue_views(cues@) + srt_cues_from(vs, p as int) == srt_cues(text@),
            srt_panics(text@) == srt_panics_from(vs, p as int),
        decreases ls.len() - p,
    {
        proof {
            lemma_step_progress(vs, p as int);
        }
        let ghost step = srt_step(vs, p as int);
        let read: Option<(Option<Cue>, usize)> = if is_blank(ls[p].as_str()) {
            Some((None, p + 1))
        } else if str_contains(ls[p].as_str(), "-->") {
            read_block(&ls, p, p + 1)
        } else if p + 1 < ls.len() {
            if str_contains(ls[p + 1].as_str(), "-->") {
                read_block(&ls, p + 1, p + 2)
            } else {
                Some((None, p + 2))
            }
        } else {
            Some((None, p + 1))
        };
        let (cue, next) = match read {
            Some(x) => x,
            None => {
                assert(step.2);
                return None;
            },
        };
        assert(!step.2);
        assert(next == step.1);
        assert(step.0 == match cue {
            Some(c) => seq![cue_view(c)],
            None => Seq::<CueTuple>::empty(),
        });
        let ghost before = cue_views(cues@);
        let ghost later = srt_cues_from(vs, next as int);
        match cue {
            Some(c) => {
                cues.push(c);
            },
            None => {},
        }
        assert(cue_views(cues@) + later =~= before + (step.0 + later));
        p = next;
    }
    assert(srt_cues_from(vs, p as int) =~= Seq::<CueTuple>::empty());
    assert(cue_views(cues@) =~= srt_cues(text@));
    Some(cues)
}

/// Every cue text is non-empty and has no white space at either end.
pub open spec fn clean_texts(cs: Seq<CueTuple>) -> bool {
    forall|i: int| 0 <= i < cs.len() ==> (#[trigger] cs[i]).2.len() > 0 && trim(cs[i].2) == cs[i].2
}

proof fn lemma_block_clean(ls: Seq<Seq<char>>, t: int, from: int)
    ensures
        clean_texts(srt_block(ls, t, from).0),
{
    let q = text_run(ls, from);
    let x = join_with(ls.subrange(from, q), " "@);
    lemma_trim_ends_not_ws(x);
    lemma_trim_of_clean(trim(x));
}

proof fn lemma_step_clean(ls: Seq<Seq<char>>, p: int)
    ensures
        clean_texts(srt_step(ls, p).0),
{
    lemma_block_clean(ls, p, p + 1);
    lemma_block_clean(ls, p + 1, p + 2);
}

proof fn lemma_cues_from_clean(ls: Seq<Seq<char>>, p: int)
    ensures
        clean_texts(srt_cues_from(ls, p)),
    decreases ls.len() - p,
{
    if 0 <= p < ls.len() {
        let (c, n, _) = srt_step(ls, p);
        lemma_step_clean(ls, p);
        if p < n <= ls.len() {
            lemma_cues_from_clean(ls, n);
            let rest = srt_cues_from(ls, n);
            let all = c + rest;
            assert forall|i: int| 0 <= i < all.len() implies (#[trigger] all[i]).2.len() > 0 && trim(
                all[i].2,
            ) == all[i].2 by {
                if i < c.len() {
                    assert(all[i] == c[i]);
                } else {
                    assert(all[i] == rest[i - c.len()]);
                }
            }
        }
    }
}

/// Every cue read from an SRT text has a non-empty text with no white space
/// at either end.
pub proof fn lemma_srt_texts_are_trimmed(text: Seq<char>)
    ensures
        clean_texts(srt_cues(text)),
{
    lemma_cues_from_clean(lines_of(text), 0);
}

/// Parse a simple SRT produced by whisper-cli `-osrt`.
pub fn parse_srt(text: &str) -> (r: Vec<Cue>)
    requires
        !srt_panics(text@),
    ensures
        cue_views(r@) == srt_cues(text@),
{
    match read_srt(text) {
        Some(v) => v,
        None => Vec::new(),
    }
}

} // verus!
