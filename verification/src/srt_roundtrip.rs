//! Reading back what the SRT writer writes: an entry for a cue with a
//! single clean line of text parses to exactly that cue.
use vstd::prelude::*;
use vstd::arithmetic::div_mod::{lemma_fundamental_div_mod, lemma_mod_mod};

use crate::subtitles::{
    byte_len, chars_in_bytes, cue_view, cue_views, millis_field, padded3, srt_block, srt_cues, srt_cues_from,
    srt_entry_text, srt_panics, srt_panics_from, srt_step, srt_time, srt_time_parse, text_run,
    utf8_len, Cue, CueTuple,
};
use crate::text::{
    all_digits, contains, find, is_ws, join_with, lemma_find_is, trim, trim_end_by, trim_start_by, decimal, digit_char, digits_value, first_index_of, lemma_lines_empty,
    lemma_lines_unfold, lines_of, occurs_at, pad_left, parse_u64_spec, repeat, replace,
    split_at_char, strip_cr,
};

verus! {

proof fn lemma_digit_char(d: nat)
    requires
        d < 10,
    ensures
        '0' <= digit_char(d) <= '9',
        digit_char(d) as nat == d + 48,
{
    let b = (d + 48) as u8;
    assert(b == d + 48);
    assert(b as char as nat == b);
}

/// The decimal rendering is a non-empty run of digits worth `n`.
proof fn lemma_decimal_digits(n: nat)
    ensures
        decimal(n).len() >= 1,
        all_digits(decimal(n)),
        digits_value(decimal(n)) == n,
    decreases n,
{
    if n < 10 {
        lemma_digit_char(n);
        assert(decimal(n) == seq![digit_char(n)]);
        assert(decimal(n).drop_last() =~= Seq::<char>::empty());
        assert(digits_value(Seq::<char>::empty()) == 0);
        assert(decimal(n).last() == digit_char(n));
        assert(digits_value(decimal(n)) == digits_value(decimal(n).drop_last()) * 10 + (
        decimal(n).last() as nat - 48) as nat);
    } else {
        lemma_decimal_digits(n / 10);
        lemma_digit_char(n % 10);
        let d = decimal(n / 10);
        assert(decimal(n) == d.push(digit_char(n % 10)));
        assert(decimal(n).drop_last() =~= d);
        assert(decimal(n).last() == digit_char(n % 10));
        assert(digits_value(decimal(n)) == digits_value(d) * 10 + (digit_char(n % 10) as nat - 48) as nat);
        lemma_fundamental_div_mod(n as int, 10);
    }
}

/// Leading zeros do not change a digit string's value.
proof fn lemma_leading_zeros(k: nat, d: Seq<char>)
    requires
        all_digits(d),
    ensures
        all_digits(repeat('0', k) + d),
        digits_value(repeat('0', k) + d) == digits_value(d),
    decreases d.len(),
{
    let z = repeat('0', k);
    if d.len() == 0 {
        assert(z + d =~= z);
        lemma_zeros_are_zero(k);
    } else {
        lemma_leading_zeros(k, d.drop_last());
        assert((z + d).drop_last() =~= z + d.drop_last());
        assert((z + d).last() == d.last());
    }
}

proof fn lemma_zeros_are_zero(k: nat)
    ensures
        all_digits(repeat('0', k)),
        digits_value(repeat('0', k)) == 0,
    decreases k,
{
    if k > 0 {
        lemma_zeros_are_zero((k - 1) as nat);
        assert(repeat('0', k).drop_last() =~= repeat('0', (k - 1) as nat));
    }
}

/// A zero-padded decimal parses back to its number.
pub proof fn lemma_padded_decimal_parses(n: u64, width: nat)
    ensures
        all_digits(pad_left(decimal(n as nat), width, '0')),
        pad_left(decimal(n as nat), width, '0').len() >= 1,
        parse_u64_spec(pad_left(decimal(n as nat), width, '0')) == Some(n),
{
    lemma_decimal_digits(n as nat);
    let d = decimal(n as nat);
    if d.len() < width {
        lemma_leading_zeros((width - d.len()) as nat, d);
    }
    let p = pad_left(d, width, '0');
    assert('0' <= p[0] <= '9');
}

/// `c` does not occur in `s`.
pub open spec fn lacks(s: Seq<char>, c: char) -> bool {
    forall|i: int| 0 <= i < s.len() ==> s[i] != c
}

proof fn lemma_first_index_after(x: Seq<char>, c: char, y: Seq<char>)
    requires
        lacks(x, c),
    ensures
        first_index_of(x + seq![c] + y, c) == Some(x.len() as int),
{
    reveal(first_index_of);
    let s = x + seq![c] + y;
    assert(s[x.len() as int] == c);
    let w = choose|i: int| 0 <= i < s.len() && s[i] == c && forall|j: int| 0 <= j < i ==> s[j] != c;
    assert(0 <= w < s.len() && s[w] == c && forall|j: int| 0 <= j < w ==> s[j] != c);
    if w < x.len() {
        assert(s[w] == x[w]);
    } else if w > x.len() {
        assert(s[x.len() as int] != c);
    }
}

proof fn lemma_first_index_none(s: Seq<char>, c: char)
    requires
        lacks(s, c),
    ensures
        first_index_of(s, c) == None::<int>,
{
    reveal(first_index_of);
}

/// Splitting at `c` where it occurs once.
proof fn lemma_split_once(x: Seq<char>, c: char, y: Seq<char>)
    requires
        lacks(x, c),
    ensures
        split_at_char(x + seq![c] + y, c) == seq![x] + split_at_char(y, c),
{
    reveal(split_at_char);
    let s = x + seq![c] + y;
    lemma_first_index_after(x, c, y);
    assert(s.subrange(0, x.len() as int) =~= x);
    assert(s.subrange(x.len() as int + 1, s.len() as int) =~= y);
}

/// Splitting where `c` does not occur.
proof fn lemma_split_none(y: Seq<char>, c: char)
    requires
        lacks(y, c),
    ensures
        split_at_char(y, c) == seq![y],
{
    reveal(split_at_char);
    lemma_first_index_none(y, c);
}

/// Replacing a one-character pattern that does not occur changes nothing.
proof fn lemma_replace_none(s: Seq<char>, from: Seq<char>, to: Seq<char>)
    requires
        from.len() == 1,
        lacks(s, from[0]),
    ensures
        replace(s, from, to) == s,
    decreases s.len(),
{
    if s.len() > 0 {
        assert(!occurs_at(s, from, 0)) by {
            if occurs_at(s, from, 0) {
                assert(s.subrange(0, 1)[0] == s[0]);
            }
        }
        lemma_replace_none(s.drop_first(), from, to);
        assert(seq![s[0]] + s.drop_first() =~= s);
    }
}

/// Replacing a one-character pattern that occurs once, after `x`.
proof fn lemma_replace_once(x: Seq<char>, from: Seq<char>, to: Seq<char>, y: Seq<char>)
    requires
        from.len() == 1,
        lacks(x, from[0]),
        lacks(y, from[0]),
    ensures
        replace(x + from + y, from, to) == x + to + y,
    decreases x.len(),
{
    let s = x + from + y;
    if x.len() == 0 {
        assert(s =~= from + y);
        assert(s.subrange(0, 1) =~= from);
        assert(s.subrange(1, s.len() as int) =~= y);
        lemma_replace_none(y, from, to);
        assert(x + to + y =~= to + y);
    } else {
        assert(!occurs_at(s, from, 0)) by {
            if occurs_at(s, from, 0) {
                assert(s.subrange(0, 1)[0] == s[0]);
                assert(s[0] == x[0]);
            }
        }
        assert(s.drop_first() =~= x.drop_first() + from + y);
        lemma_replace_once(x.drop_first(), from, to, y);
        assert(seq![s[0]] + (x.drop_first() + to + y) =~= x + to + y);
    }
}

/// One line, its newline, and the rest.
proof fn lemma_lines_cons(l: Seq<char>, rest: Seq<char>)
    requires
        lacks(l, '\n'),
        lacks(l, '\r'),
    ensures
        lines_of(l + seq!['\n'] + rest) == seq![l] + lines_of(rest),
{
    let s = l + seq!['\n'] + rest;
    lemma_first_index_after(l, '\n', rest);
    lemma_lines_unfold(s);
    assert(s.subrange(0, l.len() as int) =~= l);
    assert(s.subrange(l.len() as int + 1, s.len() as int) =~= rest);
    assert(strip_cr(l) == l) by {
        if l.len() > 0 {
            assert(l.last() == l[l.len() - 1]);
        }
    }
}

/// A digit string lacks every character that is not a digit.
proof fn lemma_digits_lack(s: Seq<char>, c: char)
    requires
        all_digits(s),
        !('0' <= c <= '9'),
    ensures
        lacks(s, c),
{
    assert forall|i: int| 0 <= i < s.len() implies s[i] != c by {
        assert('0' <= s[i] <= '9');
    }
}

proof fn lemma_decimal_short(n: nat)
    ensures
        n < 10 ==> decimal(n).len() == 1,
        n < 100 ==> decimal(n).len() <= 2,
        n < 1000 ==> decimal(n).len() <= 3,
    decreases n,
{
    if n >= 10 {
        lemma_decimal_short(n / 10);
    }
}

/// Digits take one byte each.
proof fn lemma_digits_bytes(s: Seq<char>)
    requires
        all_digits(s),
    ensures
        byte_len(s) == s.len(),
    decreases s.len(),
{
    if s.len() > 0 {
        assert(all_digits(s.drop_last())) by {
            assert forall|i: int| 0 <= i < s.drop_last().len() implies '0' <= #[trigger] s.drop_last()[i] <= '9' by {
                assert(s.drop_last()[i] == s[i]);
            }
        }
        lemma_digits_bytes(s.drop_last());
        assert('0' <= s.last() <= '9');
        assert(utf8_len(s.last()) == 1);
    }
}

proof fn lemma_digits_chars_in_bytes(s: Seq<char>, n: int)
    requires
        all_digits(s),
        0 <= n <= s.len(),
    ensures
        chars_in_bytes(s, n) == Some(n),
    decreases n,
{
    if n > 0 {
        assert('0' <= s[0] <= '9');
        assert(utf8_len(s[0]) == 1);
        assert(all_digits(s.drop_first())) by {
            assert forall|i: int| 0 <= i < s.drop_first().len() implies '0' <= #[trigger] s.drop_first()[i] <= '9' by {
                assert(s.drop_first()[i] == s[i + 1]);
            }
        }
        lemma_digits_chars_in_bytes(s.drop_first(), n - 1);
    }
}

/// The three-digit fraction of an SRT time reads back as its milliseconds.
#[verifier::rlimit(60)]
proof fn lemma_millis_field(milli: u64)
    requires
        milli < 1000,
    ensures
        millis_field(pad_left(decimal(milli as nat), 3, '0')) == Some(milli),
{
    let f = pad_left(decimal(milli as nat), 3, '0');
    lemma_decimal_short(milli as nat);
    lemma_padded_decimal_parses(milli, 3);
    assert(f.len() == 3);
    lemma_digits_bytes(f);
    assert(padded3(f) == f);
    lemma_digits_chars_in_bytes(f, 3);
    assert(f.subrange(0, 3) =~= f);
}

/// An SRT time reads back as the milliseconds it was written from.
#[verifier::rlimit(60)]
pub proof fn lemma_srt_time_parses(ms: u64)
    ensures
        srt_time_parse(srt_time(ms)) == Some(Some(ms)),
{
    reveal(srt_time);
    reveal(srt_time_parse);
    reveal_strlit(":");
    reveal_strlit(",");
    reveal_strlit(".");
    assert(","@ =~= seq![',']);
    assert("."@ =~= seq!['.']);
    assert(":"@ =~= seq![':']);
    let h = ms / 3_600_000;
    let m = (ms % 3_600_000) / 60_000;
    let sec = (ms % 60_000) / 1_000;
    let milli = ms % 1_000;
    let hh = pad_left(decimal(h as nat), 2, '0');
    let mm = pad_left(decimal(m as nat), 2, '0');
    let ss = pad_left(decimal(sec as nat), 2, '0');
    let ff = pad_left(decimal(milli as nat), 3, '0');
    lemma_padded_decimal_parses(h as u64, 2);
    lemma_padded_decimal_parses(m as u64, 2);
    lemma_padded_decimal_parses(sec as u64, 2);
    lemma_padded_decimal_parses(milli as u64, 3);
    lemma_millis_field(milli as u64);
    lemma_digits_lack(hh, ':');
    lemma_digits_lack(mm, ':');
    lemma_digits_lack(ss, ':');
    lemma_digits_lack(ff, ':');
    lemma_digits_lack(hh, ',');
    lemma_digits_lack(mm, ',');
    lemma_digits_lack(ss, ',');
    lemma_digits_lack(ff, ',');
    lemma_digits_lack(ss, '.');
    lemma_digits_lack(ff, '.');
    let t = srt_time(ms);
    let x = hh + seq![':'] + mm + seq![':'] + ss;
    assert(t =~= x + seq![','] + ff);
    assert(lacks(x, ',')) by {
        assert forall|i: int| 0 <= i < x.len() implies x[i] != ',' by {
            if i < hh.len() {
                assert(x[i] == hh[i]);
            } else if i == hh.len() {
            } else if i < hh.len() + 1 + mm.len() {
                assert(x[i] == mm[i - hh.len() - 1]);
            } else if i == hh.len() + 1 + mm.len() {
            } else {
                assert(x[i] == ss[i - hh.len() - 2 - mm.len()]);
            }
        }
    }
    lemma_replace_once(x, seq![','], seq!['.'], ff);
    let r = x + seq!['.'] + ff;
    let tail = ss + seq!['.'] + ff;
    assert(lacks(tail, ':')) by {
        assert forall|i: int| 0 <= i < tail.len() implies tail[i] != ':' by {
            if i < ss.len() {
                assert(tail[i] == ss[i]);
            } else if i > ss.len() {
                assert(tail[i] == ff[i - ss.len() - 1]);
            }
        }
    }
    assert(r =~= hh + seq![':'] + (mm + seq![':'] + tail));
    lemma_split_once(hh, ':', mm + seq![':'] + tail);
    lemma_split_once(mm, ':', tail);
    lemma_split_none(tail, ':');
    let parts = split_at_char(r, ':');
    assert(parts =~= seq![hh, mm, tail]);
    lemma_split_once(ss, '.', ff);
    lemma_split_none(ff, '.');
    assert(split_at_char(tail, '.') =~= seq![ss, ff]);
    lemma_fundamental_div_mod(ms as int, 3_600_000);
    lemma_fundamental_div_mod((ms % 3_600_000) as int, 60_000);
    lemma_mod_mod(ms as int, 60_000, 60);
    lemma_fundamental_div_mod((ms % 60_000) as int, 1_000);
    lemma_mod_mod(ms as int, 1_000, 60);
    assert(h * 3_600_000 + m * 60_000 + sec * 1_000 + milli == ms);
    assert(replace(t, ","@, "."@) == r);
    assert(parts.len() == 3);
    assert(parse_u64_spec(parts[0]) == Some(h));
    assert(parse_u64_spec(parts[1]) == Some(m));
    assert(parse_u64_spec(split_at_char(parts[2], '.')[0]) == Some(sec));
    assert(millis_field(split_at_char(parts[2], '.')[1]) == Some(milli));
}

/// An SRT time is digits, colons and a comma, starting and ending with a digit.
#[verifier::rlimit(60)]
proof fn lemma_srt_time_shape(ms: u64)
    ensures
        time_shaped(srt_time(ms)),
{
    reveal(srt_time);
    reveal(time_shaped);
    reveal_strlit(":");
    reveal_strlit(",");
    let h = ms / 3_600_000;
    let m = (ms % 3_600_000) / 60_000;
    let sec = (ms % 60_000) / 1_000;
    let milli = ms % 1_000;
    let hh = pad_left(decimal(h as nat), 2, '0');
    let mm = pad_left(decimal(m as nat), 2, '0');
    let ss = pad_left(decimal(sec as nat), 2, '0');
    let ff = pad_left(decimal(milli as nat), 3, '0');
    lemma_padded_decimal_parses(h as u64, 2);
    lemma_padded_decimal_parses(m as u64, 2);
    lemma_padded_decimal_parses(sec as u64, 2);
    lemma_padded_decimal_parses(milli as u64, 3);
    let t = srt_time(ms);
    assert(t =~= hh + seq![':'] + mm + seq![':'] + ss + seq![','] + ff);
    assert(t[0] == hh[0]);
    assert(t.last() == ff.last());
    assert(ff.last() == ff[ff.len() - 1]);
    assert forall|i: int| 0 <= i < t.len() implies ('0' <= #[trigger] t[i] <= '9' || t[i] == ':'
        || t[i] == ',') by {
        let a = hh.len() as int;
        let b = a + 1 + mm.len();
        let c = b + 1 + ss.len();
        if i < a {
            assert(t[i] == hh[i]);
        } else if a < i < b {
            assert(t[i] == mm[i - a - 1]);
        } else if b < i < c {
            assert(t[i] == ss[i - b - 1]);
        } else if i > c {
            assert(t[i] == ff[i - c - 1]);
        }
    }
}

/// A pattern whose first character is missing does not occur.
proof fn lemma_absent_pattern(s: Seq<char>, p: Seq<char>)
    requires
        p.len() > 0,
        lacks(s, p[0]),
    ensures
        !contains(s, p),
{
    assert forall|i: int| !occurs_at(s, p, i) by {
        if occurs_at(s, p, i) {
            assert(s.subrange(i, i + p.len())[0] == s[i]);
        }
    }
}

/// A cue's text fit for one SRT line: not blank, without surrounding white
/// space, line breaks, or an arrow that would read as a timing line.
pub open spec fn single_line_text(t: Seq<char>) -> bool {
    &&& t.len() > 0
    &&& trim(t) == t
    &&& lacks(t, '\n')
    &&& lacks(t, '\r')
    &&& !contains(t, "-->"@)
}

/// The timing line `a --> b` of an entry.
pub open spec fn timing_line(start: u64, end: u64) -> Seq<char> {
    srt_time(start) + " --> "@ + srt_time(end)
}

/// A time field's shape: digits, colons and commas, starting and ending with a digit.
#[verifier::opaque]
pub open spec fn time_shaped(a: Seq<char>) -> bool {
    &&& a.len() > 0
    &&& '0' <= a[0] <= '9'
    &&& '0' <= a.last() <= '9'
    &&& forall|i: int| 0 <= i < a.len() ==> ('0' <= #[trigger] a[i] <= '9' || a[i] == ':' || a[i] == ',')
}

#[verifier::rlimit(60)]
proof fn lemma_arrow_line(a: Seq<char>, b: Seq<char>)
    requires
        time_shaped(a),
        time_shaped(b),
    ensures
        ({
            let t = a + " --> "@ + b;
            let k = a.len() as int + 1;
            &&& lacks(t, '\n')
            &&& lacks(t, '\r')
            &&& contains(t, "-->"@)
            &&& find(t, "-->"@) == Some(k)
            &&& k + 3 <= t.len()
            &&& trim(t.subrange(0, k)) == a
            &&& trim(t.subrange(k + 3, t.len() as int)) == b
        }),
{
    reveal(time_shaped);
    reveal_strlit(" --> ");
    reveal_strlit("-->");
    let arrow = " --> "@;
    let t = a + arrow + b;
    assert forall|i: int| 0 <= i < t.len() implies t[i] != '\n' && t[i] != '\r' by {
        if i < a.len() {
            assert(t[i] == a[i]);
        } else if i < a.len() + 5 {
            assert(t[i] == arrow[i - a.len()]);
        } else {
            assert(t[i] == b[i - a.len() - 5]);
        }
    }
    let k = a.len() as int + 1;
    assert(t.subrange(k, k + 3) =~= "-->"@);
    assert forall|j: int| 0 <= j < k implies !occurs_at(t, "-->"@, j) by {
        if occurs_at(t, "-->"@, j) {
            assert(t.subrange(j, j + 3)[0] == t[j]);
            if j < a.len() {
                assert(t[j] == a[j]);
            } else {
                assert(t[j] == ' ');
            }
        }
    }
    lemma_find_is(t, "-->"@, k);
    assert(occurs_at(t, "-->"@, k));
    let left = t.subrange(0, k);
    let right = t.subrange(k + 3, t.len() as int);
    assert(left =~= a + seq![' ']);
    assert(right =~= seq![' '] + b);
    assert(trim_start_by(left, None) == left);
    assert(left.drop_last() =~= a);
    assert(trim_end_by(a, None) == a);
    assert(trim_end_by(left, None) == a);
    assert(right.drop_first() =~= b);
    assert(trim_start_by(b, None) == b);
    assert(trim_start_by(right, None) == b);
    assert(trim_end_by(b, None) == b);
}

#[verifier::rlimit(60)]
proof fn lemma_timing_line(start: u64, end: u64)
    ensures
        ({
            let t = timing_line(start, end);
            let k = srt_time(start).len() as int + 1;
            &&& lacks(t, '\n')
            &&& lacks(t, '\r')
            &&& contains(t, "-->"@)
            &&& find(t, "-->"@) == Some(k)
            &&& k + 3 <= t.len()
            &&& trim(t.subrange(0, k)) == srt_time(start)
            &&& trim(t.subrange(k + 3, t.len() as int)) == srt_time(end)
        }),
{
    lemma_srt_time_shape(start);
    lemma_srt_time_shape(end);
    lemma_arrow_line(srt_time(start), srt_time(end));
}

/// The index line: a digit run, neither blank nor a timing line.
proof fn lemma_index_line(index: u32)
    ensures
        ({
            let d = decimal(index as nat);
            &&& d.len() > 0
            &&& trim(d) == d
            &&& !contains(d, "-->"@)
            &&& lacks(d, '\n')
            &&& lacks(d, '\r')
        }),
{
    reveal_strlit("-->");
    let d = decimal(index as nat);
    lemma_decimal_digits(index as nat);
    lemma_digits_lack(d, '-');
    lemma_digits_lack(d, '\n');
    lemma_digits_lack(d, '\r');
    lemma_absent_pattern(d, "-->"@);
    assert('0' <= d[0] <= '9');
    assert('0' <= d[d.len() - 1] <= '9');
    crate::redact::lemma_trim_of_clean(d);
}

#[verifier::rlimit(60)]
proof fn lemma_four_lines(d: Seq<char>, t: Seq<char>, x: Seq<char>, rest: Seq<char>)
    requires
        lacks(d, '\n'),
        lacks(d, '\r'),
        lacks(t, '\n'),
        lacks(t, '\r'),
        lacks(x, '\n'),
        lacks(x, '\r'),
    ensures
        lines_of(d + "\n"@ + t + "\n"@ + x + "\n\n"@ + rest) == seq![d, t, x, Seq::<char>::empty()]
            + lines_of(rest),
{
    reveal_strlit("\n");
    reveal_strlit("\n\n");
    let empty = Seq::<char>::empty();
    let e = d + "\n"@ + t + "\n"@ + x + "\n\n"@ + rest;
    assert(e =~= d + seq!['\n'] + (t + seq!['\n'] + (x + seq!['\n'] + (empty + seq!['\n'] + rest))));
    lemma_lines_cons(d, t + seq!['\n'] + (x + seq!['\n'] + (empty + seq!['\n'] + rest)));
    lemma_lines_cons(t, x + seq!['\n'] + (empty + seq!['\n'] + rest));
    lemma_lines_cons(x, empty + seq!['\n'] + rest);
    lemma_lines_cons(empty, rest);
    assert(lines_of(e) =~= seq![d, t, x, empty] + lines_of(rest));
}

proof fn lemma_regroup(
    d: Seq<char>,
    n: Seq<char>,
    a: Seq<char>,
    arrow: Seq<char>,
    b: Seq<char>,
    x: Seq<char>,
    nn: Seq<char>,
    rest: Seq<char>,
)
    ensures
        d + n + a + arrow + b + n + x + nn + rest == d + n + (a + arrow + b) + n + x + nn + rest,
{
    assert(d + n + a + arrow + b + n + x + nn + rest =~= d + n + (a + arrow + b) + n + x + nn + rest);
}

/// The four lines of one entry.
pub open spec fn entry_lines(index: u32, c: Cue) -> Seq<Seq<char>> {
    seq![decimal(index as nat), timing_line(c.start, c.end), c.text@, Seq::<char>::empty()]
}

/// An entry followed by anything is the entry's four lines, then the rest's.
#[verifier::rlimit(60)]
proof fn lemma_entry_lines(index: u32, c: Cue, rest: Seq<char>)
    requires
        lacks(c.text@, '\n'),
        lacks(c.text@, '\r'),
    ensures
        lines_of(srt_entry_text(index, c) + rest) == entry_lines(index, c) + lines_of(rest),
{
    let d = decimal(index as nat);
    let t = timing_line(c.start, c.end);
    lemma_index_line(index);
    lemma_timing_line(c.start, c.end);
    lemma_four_lines(d, t, c.text@, rest);
    lemma_regroup(d, "\n"@, srt_time(c.start), " --> "@, srt_time(c.end), c.text@, "\n\n"@, rest);
}

/// Reading an entry's lines, whatever follows them, yields its cue and
/// moves on past the blank line.
#[verifier::rlimit(60)]
proof fn lemma_entry_step(index: u32, c: Cue, later: Seq<Seq<char>>)
    requires
        single_line_text(c.text@),
    ensures
        srt_step(entry_lines(index, c) + later, 0) == (seq![cue_view(c)], 4int, false),
{
    let d = decimal(index as nat);
    let t = timing_line(c.start, c.end);
    let x = c.text@;
    let empty = Seq::<char>::empty();
    lemma_index_line(index);
    lemma_timing_line(c.start, c.end);
    lemma_srt_time_parses(c.start);
    lemma_srt_time_parses(c.end);
    let ls = entry_lines(index, c) + later;
    assert(ls[0] == d && ls[1] == t && ls[2] == x && ls[3] == empty && ls.len() >= 4);
    assert(trim(empty).len() == 0);
    assert(text_run(ls, 3) == 3);
    assert(text_run(ls, 2) == 3);
    assert(ls.subrange(2, 3) =~= seq![x]);
    assert(join_with(seq![x], " "@) == x);
    assert(srt_block(ls, 1, 2) == (seq![(c.start, c.end, x)], 4int, false));
}

proof fn lemma_text_run_shift(p: Seq<Seq<char>>, r: Seq<Seq<char>>, j: int)
    requires
        0 <= j <= r.len(),
    ensures
        text_run(p + r, p.len() + j) == p.len() + text_run(r, j),
    decreases r.len() - j,
{
    if j < r.len() {
        assert((p + r)[p.len() + j] == r[j]);
        lemma_text_run_shift(p, r, j + 1);
    }
}

#[verifier::rlimit(60)]
proof fn lemma_block_shift(p: Seq<Seq<char>>, r: Seq<Seq<char>>, t: int, from: int)
    requires
        0 <= t < r.len(),
        0 <= from <= r.len(),
    ensures
        ({
            let (c1, n1, b1) = srt_block(p + r, p.len() + t, p.len() + from);
            let (c2, n2, b2) = srt_block(r, t, from);
            c1 == c2 && n1 == p.len() + n2 && b1 == b2
        }),
{
    let k = p.len() as int;
    lemma_text_run_shift(p, r, from);
    crate::subtitles::lemma_text_run_bounds(r, from);
    let q = text_run(r, from);
    assert((p + r)[k + t] == r[t]);
    if q < r.len() {
        assert((p + r)[k + q] == r[q]);
    }
    assert((p + r).subrange(k + from, k + q) =~= r.subrange(from, q));
}

#[verifier::rlimit(60)]
proof fn lemma_step_shift(p: Seq<Seq<char>>, r: Seq<Seq<char>>, i: int)
    requires
        0 <= i < r.len(),
    ensures
        ({
            let (c1, n1, b1) = srt_step(p + r, p.len() + i);
            let (c2, n2, b2) = srt_step(r, i);
            c1 == c2 && n1 == p.len() + n2 && b1 == b2
        }),
{
    let k = p.len() as int;
    assert((p + r)[k + i] == r[i]);
    if i + 1 < r.len() {
        assert((p + r)[k + i + 1] == r[i + 1]);
        if i + 2 <= r.len() {
            lemma_block_shift(p, r, i + 1, i + 2);
        }
    }
    if i + 1 <= r.len() {
        lemma_block_shift(p, r, i, i + 1);
    }
}

/// Reading lines that follow others goes as reading them alone.
#[verifier::rlimit(60)]
proof fn lemma_read_shift(p: Seq<Seq<char>>, r: Seq<Seq<char>>, i: int)
    requires
        0 <= i <= r.len(),
    ensures
        srt_cues_from(p + r, p.len() + i) == srt_cues_from(r, i),
        srt_panics_from(p + r, p.len() + i) == srt_panics_from(r, i),
    decreases r.len() - i,
{
    if i < r.len() {
        lemma_step_shift(p, r, i);
        crate::subtitles::lemma_step_progress(r, i);
        let n = srt_step(r, i).1;
        lemma_read_shift(p, r, n);
    }
}

/// Reading an entry's lines and then others yields the entry's cue, then
/// what the others yield alone.
#[verifier::rlimit(100)]
proof fn lemma_read_after_entry(index: u32, c: Cue, later: Seq<Seq<char>>)
    requires
        single_line_text(c.text@),
    ensures
        srt_cues_from(entry_lines(index, c) + later, 0) == seq![cue_view(c)] + srt_cues_from(later, 0),
        srt_panics_from(entry_lines(index, c) + later, 0) == srt_panics_from(later, 0),
{
    let b = entry_lines(index, c);
    let ls = b + later;
    lemma_entry_step(index, c, later);
    lemma_read_shift(b, later, 0);
    assert(b.len() == 4);
    assert(ls.len() >= 4);
}

/// The cues the reader yields from a text, kept folded while the proof
/// below reasons one entry at a time.
#[verifier::opaque]
spec fn cues_read(text: Seq<char>) -> Seq<CueTuple> {
    srt_cues(text)
}

#[verifier::opaque]
spec fn read_panics(text: Seq<char>) -> bool {
    srt_panics(text)
}

#[verifier::rlimit(60)]
proof fn lemma_entry_then(index: u32, c: Cue, rest: Seq<char>)
    requires
        single_line_text(c.text@),
    ensures
        cues_read(srt_entry_text(index, c) + rest) == seq![cue_view(c)] + cues_read(rest),
        read_panics(srt_entry_text(index, c) + rest) == read_panics(rest),
{
    reveal(cues_read);
    reveal(read_panics);
    lemma_entry_lines(index, c, rest);
    lemma_read_after_entry(index, c, lines_of(rest));
}

proof fn lemma_nothing_read()
    ensures
        cues_read(Seq::<char>::empty()) == Seq::<CueTuple>::empty(),
        !read_panics(Seq::<char>::empty()),
{
    reveal(cues_read);
    reveal(read_panics);
    lemma_lines_empty();
}

/// The SRT file a writer numbering from `first` writes for `cues`.
pub open spec fn srt_document(cues: Seq<Cue>, first: u32) -> Seq<char>
    decreases cues.len(),
{
    if cues.len() == 0 {
        Seq::<char>::empty()
    } else {
        srt_entry_text(first, cues[0]) + srt_document(cues.drop_first(), (first + 1) as u32)
    }
}

#[verifier::rlimit(60)]
proof fn lemma_document_reads(cues: Seq<Cue>, first: u32)
    requires
        first + cues.len() <= 0x1_0000_0000,
        forall|i: int| 0 <= i < cues.len() ==> single_line_text(#[trigger] cues[i].text@),
    ensures
        !read_panics(srt_document(cues, first)),
        cues_read(srt_document(cues, first)) == cue_views(cues),
    decreases cues.len(),
{
    if cues.len() == 0 {
        lemma_nothing_read();
        assert(cue_views(cues) =~= Seq::<CueTuple>::empty());
    } else {
        let c = cues[0];
        let tail = cues.drop_first();
        assert(single_line_text(c.text@));
        assert forall|i: int| 0 <= i < tail.len() implies single_line_text(#[trigger] tail[i].text@) by {
            assert(tail[i] == cues[i + 1]);
        }
        lemma_document_reads(tail, (first + 1) as u32);
        let rest = srt_document(tail, (first + 1) as u32);
        lemma_entry_then(first, c, rest);
        assert(cue_views(cues) =~= seq![cue_view(c)] + cue_views(tail));
    }
}

/// What an SRT writer writes, cue after cue with their numbers, reads back
/// through the SRT reader as exactly those cues, in order, without a panic,
/// when each cue's text is a single clean line.
pub proof fn lemma_srt_document_reads_back(cues: Seq<Cue>, first: u32)
    requires
        first + cues.len() <= 0x1_0000_0000,
        forall|i: int| 0 <= i < cues.len() ==> single_line_text(#[trigger] cues[i].text@),
    ensures
        !srt_panics(srt_document(cues, first)),
        srt_cues(srt_document(cues, first)) == cue_views(cues),
{
    lemma_document_reads(cues, first);
    reveal(cues_read);
    reveal(read_panics);
}

proof fn lemma_trim_start_keeps(s: Seq<char>, i: int)
    requires
        0 <= i < s.len(),
        !is_ws(s[i]),
    ensures
        ({
            let r = trim_start_by(s, None);
            let off = s.len() - r.len();
            &&& 0 <= off <= i
            &&& r[i - off] == s[i]
        }),
    decreases s.len(),
{
    if s.len() > 0 && is_ws(s[0]) {
        assert(i > 0);
        assert(s.drop_first()[i - 1] == s[i]);
        lemma_trim_start_keeps(s.drop_first(), i - 1);
    }
}

proof fn lemma_trim_end_keeps(s: Seq<char>, i: int)
    requires
        0 <= i < s.len(),
        !is_ws(s[i]),
    ensures
        i < trim_end_by(s, None).len(),
    decreases s.len(),
{
    if s.len() > 0 && is_ws(s.last()) {
        assert(i < s.len() - 1);
        assert(s.drop_last()[i] == s[i]);
        lemma_trim_end_keeps(s.drop_last(), i);
    }
}

/// A text with a character that is not white space is not blank.
proof fn lemma_not_blank(s: Seq<char>, i: int)
    requires
        0 <= i < s.len(),
        !is_ws(s[i]),
    ensures
        trim(s).len() > 0,
{
    lemma_trim_start_keeps(s, i);
    let r = trim_start_by(s, None);
    let off = s.len() - r.len();
    lemma_trim_end_keeps(r, i - off);
}

/// One line, its newline, and the rest, where the line may end in `\r`.
proof fn lemma_lines_cons_cr(l: Seq<char>, rest: Seq<char>)
    requires
        lacks(l, '\n'),
    ensures
        lines_of(l + seq!['\n'] + rest) == seq![strip_cr(l)] + lines_of(rest),
{
    let s = l + seq!['\n'] + rest;
    lemma_first_index_after(l, '\n', rest);
    lemma_lines_unfold(s);
    assert(s.subrange(0, l.len() as int) =~= l);
    assert(s.subrange(l.len() as int + 1, s.len() as int) =~= rest);
}

proof fn lemma_trim_start_push_ws(s: Seq<char>, c: char)
    requires
        is_ws(c),
    ensures
        trim_start_by(s.push(c), None) == (if trim_start_by(s, None).len() == 0 {
            Seq::<char>::empty()
        } else {
            trim_start_by(s, None).push(c)
        }),
    decreases s.len(),
{
    if s.len() == 0 {
        assert(s.push(c).drop_first() =~= Seq::<char>::empty());
        assert(trim_start_by(Seq::<char>::empty(), None) == Seq::<char>::empty());
        assert(s.push(c)[0] == c);
    } else if is_ws(s[0]) {
        assert(s.push(c)[0] == s[0]);
        assert(s.push(c).drop_first() =~= s.drop_first().push(c));
        lemma_trim_start_push_ws(s.drop_first(), c);
    } else {
        assert(s.push(c)[0] == s[0]);
    }
}

/// White space added at the end does not change the trimmed text.
proof fn lemma_trim_push_ws(s: Seq<char>, c: char)
    requires
        is_ws(c),
    ensures
        trim(s.push(c)) == trim(s),
{
    lemma_trim_start_push_ws(s, c);
    let ts = trim_start_by(s, None);
    if ts.len() > 0 {
        assert(ts.push(c).drop_last() =~= ts);
    }
}

/// Dropping a line's final `\r` does not change it trimmed, nor add an arrow.
proof fn lemma_strip_cr_text(t: Seq<char>)
    ensures
        trim(strip_cr(t)) == trim(t),
        contains(strip_cr(t), "-->"@) ==> contains(t, "-->"@),
{
    if t.len() > 0 && t.last() == '\r' {
        let x = t.drop_last();
        assert(x.push('\r') =~= t);
        lemma_trim_push_ws(x, '\r');
        if contains(x, "-->"@) {
            let i = choose|i: int| occurs_at(x, "-->"@, i);
            assert(x.subrange(i, i + "-->"@.len()) =~= t.subrange(i, i + "-->"@.len()));
            assert(occurs_at(t, "-->"@, i));
        }
    }
}

/// One entry as it may come in: an index line or none, the timing line, then
/// one line of text, each ended by a newline.
pub open spec fn single_entry(index: Option<u32>, start: u64, end: u64, t: Seq<char>) -> Seq<char> {
    let head = match index {
        Some(i) => decimal(i as nat) + "\n"@,
        None => Seq::<char>::empty(),
    };
    head + timing_line(start, end) + "\n"@ + t + "\n"@
}

/// The lines of one such entry.
pub open spec fn single_entry_lines(index: Option<u32>, start: u64, end: u64, t: Seq<char>) -> Seq<
    Seq<char>,
> {
    let head = match index {
        Some(i) => seq![decimal(i as nat)],
        None => Seq::<Seq<char>>::empty(),
    };
    head + seq![timing_line(start, end), strip_cr(t)]
}

#[verifier::rlimit(60)]
proof fn lemma_single_entry_lines(index: Option<u32>, start: u64, end: u64, t: Seq<char>)
    requires
        lacks(t, '\n'),
    ensures
        lines_of(single_entry(index, start, end, t)) == single_entry_lines(index, start, end, t),
{
    reveal_strlit("\n");
    let tl = timing_line(start, end);
    let empty = Seq::<char>::empty();
    lemma_timing_line(start, end);
    lemma_lines_empty();
    lemma_lines_cons_cr(t, empty);
    assert(t + seq!['\n'] + empty =~= t + seq!['\n']);
    lemma_lines_cons(tl, t + seq!['\n']);
    assert(lines_of(tl + seq!['\n'] + (t + seq!['\n'])) =~= seq![tl, strip_cr(t)]);
    match index {
        Some(i) => {
            let d = decimal(i as nat);
            lemma_index_line(i);
            lemma_lines_cons(d, tl + seq!['\n'] + (t + seq!['\n']));
            assert(single_entry(index, start, end, t) =~= d + seq!['\n'] + (tl + seq!['\n'] + (t
                + seq!['\n'])));
            assert(single_entry_lines(index, start, end, t) =~= seq![d] + seq![tl, strip_cr(t)]);
        },
        None => {
            assert(single_entry(index, start, end, t) =~= tl + seq!['\n'] + (t + seq!['\n']));
            assert(single_entry_lines(index, start, end, t) =~= seq![tl, strip_cr(t)]);
        },
    }
}

/// The block at the timing line `ls[k]` with the text line after it, the last line.
#[verifier::rlimit(60)]
proof fn lemma_single_block(ls: Seq<Seq<char>>, k: int, start: u64, end: u64, t: Seq<char>)
    requires
        0 <= k,
        ls.len() == k + 2,
        ls[k] == timing_line(start, end),
        ls[k + 1] == t,
        trim(t).len() > 0,
        !contains(t, "-->"@),
    ensures
        srt_block(ls, k, k + 1) == (seq![(start, end, trim(t))], k + 2, false),
{
    lemma_timing_line(start, end);
    lemma_srt_time_parses(start);
    lemma_srt_time_parses(end);
    assert(text_run(ls, k + 2) == k + 2);
    assert(text_run(ls, k + 1) == k + 2);
    assert(ls.subrange(k + 1, k + 2) =~= seq![t]);
    assert(join_with(seq![t], " "@) == t);
}

/// One SRT entry, with or without its index line, whose text is one line
/// (not blank, no newline, no `-->`; a `\r` is allowed), reads back without a panic as
/// exactly its cue: its start, its end, and its text trimmed.
#[verifier::rlimit(80)]
pub proof fn lemma_single_entry_reads_back(index: Option<u32>, start: u64, end: u64, t: Seq<char>)
    requires
        trim(t).len() > 0,
        lacks(t, '\n'),
        !contains(t, "-->"@),
    ensures
        !srt_panics(single_entry(index, start, end, t)),
        srt_cues(single_entry(index, start, end, t)) == seq![(start, end, trim(t))],
{
    lemma_single_entry_lines(index, start, end, t);
    let ls = single_entry_lines(index, start, end, t);
    lemma_timing_line(start, end);
    lemma_strip_cr_text(t);
    let x = strip_cr(t);
    let k: int = if index is Some {
        1
    } else {
        0
    };
    assert(ls.len() == k + 2 && ls[k] == timing_line(start, end) && ls[k + 1] == x);
    lemma_single_block(ls, k, start, end, x);
    if let Some(i) = index {
        lemma_index_line(i);
        assert(ls[0] == decimal(i as nat));
        assert(srt_step(ls, 0) == srt_block(ls, 1, 2));
    } else {
        let tl = timing_line(start, end);
        let k = srt_time(start).len() as int + 1;
        assert(tl[k] == '-') by {
            reveal_strlit("-->");
            crate::redact::lemma_find_occurs(tl, "-->"@);
            assert(tl.subrange(k, k + 3)[0] == tl[k]);
        }
        lemma_not_blank(tl, k);
        assert(srt_step(ls, 0) == srt_block(ls, 0, 1));
    }
    assert(srt_cues_from(ls, k + 2) == Seq::<CueTuple>::empty());
    assert(!srt_panics_from(ls, k + 2));
    assert(srt_cues_from(ls, 0) == seq![(start, end, trim(t))] + Seq::<CueTuple>::empty());
    assert(srt_cues_from(ls, 0) =~= seq![(start, end, trim(t))]);
}

} // verus!
