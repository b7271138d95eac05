//! Character-level text operations used by the relay: trimming, searching,
//! decimal rendering and string assembly, each stated over `Seq<char>`.
use vstd::prelude::*;
use vstd::string::*;

verus! {

/// `String::push` appends one character.
pub assume_specification[ String::push ](s: &mut String, ch: char)
    ensures
        final(s)@ == old(s)@.push(ch),
;

/// Unicode `White_Space`, the set that `char::is_whitespace` tests.
pub open spec fn is_ws(c: char) -> bool {
    ||| ('\u{9}' <= c && c <= '\u{d}')
    ||| c == ' '
    ||| c == '\u{85}'
    ||| c == '\u{a0}'
    ||| c == '\u{1680}'
    ||| ('\u{2000}' <= c && c <= '\u{200a}')
    ||| c == '\u{2028}'
    ||| c == '\u{2029}'
    ||| c == '\u{202f}'
    ||| c == '\u{205f}'
    ||| c == '\u{3000}'
}

pub fn is_ws_char(c: char) -> (b: bool)
    ensures
        b == is_ws(c),
{
    ('\u{9}' <= c && c <= '\u{d}') || c == ' ' || c == '\u{85}' || c == '\u{a0}' || c
        == '\u{1680}' || ('\u{2000}' <= c && c <= '\u{200a}') || c == '\u{2028}' || c
        == '\u{2029}' || c == '\u{202f}' || c == '\u{205f}' || c == '\u{3000}'
}

/// Which characters a trim removes: white space (`None`) or one given character.
pub open spec fn strips(k: Option<char>, c: char) -> bool {
    match k {
        None => is_ws(c),
        Some(x) => c == x,
    }
}

fn strips_exec(k: Option<char>, c: char) -> (b: bool)
    ensures
        b == strips(k, c),
{
    match k {
        None => is_ws_char(c),
        Some(x) => c == x,
    }
}

pub open spec fn trim_start_by(s: Seq<char>, k: Option<char>) -> Seq<char>
    decreases s.len(),
{
    if s.len() > 0 && strips(k, s[0]) {
        trim_start_by(s.drop_first(), k)
    } else {
        s
    }
}

pub open spec fn trim_end_by(s: Seq<char>, k: Option<char>) -> Seq<char>
    decreases s.len(),
{
    if s.len() > 0 && strips(k, s.last()) {
        trim_end_by(s.drop_last(), k)
    } else {
        s
    }
}

/// `str::trim`.
pub open spec fn trim(s: Seq<char>) -> Seq<char> {
    trim_end_by(trim_start_by(s, None), None)
}

/// `str::trim_matches` with a single character.
pub open spec fn trim_matches(s: Seq<char>, c: char) -> Seq<char> {
    trim_end_by(trim_start_by(s, Some(c)), Some(c))
}

/// `str::trim_end_matches` with a single character.
pub open spec fn trim_end_matches(s: Seq<char>, c: char) -> Seq<char> {
    trim_end_by(s, Some(c))
}

/// The characters of a string slice.
pub fn chars_of(s: &str) -> (v: Vec<char>)
    ensures
        v@ == s@,
{
    let mut v: Vec<char> = Vec::new();
    for c in it: s.chars()
        invariant
            v@ == it.seq().take(it.index() as int),
            it.seq() == s@,
    {
        v.push(c);
    }
    v
}

/// A string made of `v[lo..hi]`.
pub fn string_of_range(v: &Vec<char>, lo: usize, hi: usize) -> (s: String)
    requires
        lo <= hi <= v.len(),
    ensures
        s@ == v@.subrange(lo as int, hi as int),
{
    let mut s = String::new();
    let mut i: usize = lo;
    while i < hi
        invariant
            lo <= i <= hi <= v.len(),
            s@ == v@.subrange(lo as int, i as int),
        decreases hi - i,
    {
        s.push(v[i]);
        i = i + 1;
        assert(s@ =~= v@.subrange(lo as int, i as int));
    }
    s
}

/// A string made of all of `v`.
pub fn string_of(v: &Vec<char>) -> (s: String)
    ensures
        s@ == v@,
{
    let s = string_of_range(v, 0, v.len());
    assert(v@.subrange(0, v@.len() as int) =~= v@);
    s
}

proof fn lemma_trim_start_step(s: Seq<char>, k: Option<char>, i: int)
    requires
        0 <= i < s.len(),
        strips(k, s[i]),
    ensures
        trim_start_by(s.subrange(i, s.len() as int), k) == trim_start_by(
            s.subrange(i + 1, s.len() as int),
            k,
        ),
{
    assert(s.subrange(i, s.len() as int).drop_first() =~= s.subrange(i + 1, s.len() as int));
}

proof fn lemma_trim_end_step(s: Seq<char>, k: Option<char>, j: int)
    requires
        0 < j <= s.len(),
        strips(k, s[j - 1]),
    ensures
        trim_end_by(s.subrange(0, j), k) == trim_end_by(s.subrange(0, j - 1), k),
{
    assert(s.subrange(0, j).drop_last() =~= s.subrange(0, j - 1));
}

/// Index of the first character that `k` does not strip.
fn trim_start_index(v: &Vec<char>, k: Option<char>) -> (i: usize)
    ensures
        i <= v.len(),
        trim_start_by(v@, k) == v@.subrange(i as int, v.len() as int),
{
    let mut i: usize = 0;
    assert(v@.subrange(0, v.len() as int) =~= v@);
    while i < v.len() && strips_exec(k, v[i])
        invariant
            i <= v.len(),
            trim_start_by(v@, k) == trim_start_by(v@.subrange(i as int, v.len() as int), k),
        decreases v.len() - i,
    {
        proof {
            lemma_trim_start_step(v@, k, i as int);
        }
        i = i + 1;
    }
    i
}

/// Index just past the last character of `v[lo..]` that `k` does not strip.
fn trim_end_index(v: &Vec<char>, lo: usize, k: Option<char>) -> (j: usize)
    requires
        lo <= v.len(),
    ensures
        lo <= j <= v.len(),
        trim_end_by(v@.subrange(lo as int, v.len() as int), k) == v@.subrange(lo as int, j as int),
{
    let ghost w = v@.subrange(lo as int, v.len() as int);
    let mut j: usize = v.len();
    assert(w.subrange(0, w.len() as int) =~= w);
    while j > lo && strips_exec(k, v[j - 1])
        invariant
            lo <= j <= v.len(),
            w == v@.subrange(lo as int, v.len() as int),
            trim_end_by(w, k) == trim_end_by(w.subrange(0, j - lo), k),
        decreases j,
    {
        proof {
            lemma_trim_end_step(w, k, j - lo);
        }
        j = j - 1;
    }
    assert(w.subrange(0, j - lo) =~= v@.subrange(lo as int, j as int));
    j
}

/// Bounds `(lo, hi)` of `v` trimmed at both ends by `k`.
pub fn trim_bounds(v: &Vec<char>, k: Option<char>) -> (r: (usize, usize))
    ensures
        r.0 <= r.1 <= v.len(),
        trim_end_by(trim_start_by(v@, k), k) == v@.subrange(r.0 as int, r.1 as int),
{
    let lo = trim_start_index(v, k);
    let hi = trim_end_index(v, lo, k);
    (lo, hi)
}

/// `s.trim()` as characters.
pub fn trim_chars(s: &str) -> (r: Vec<char>)
    ensures
        r@ == trim(s@),
{
    let v = chars_of(s);
    let (lo, hi) = trim_bounds(&v, None);
    let mut r: Vec<char> = Vec::new();
    let mut i = lo;
    while i < hi
        invariant
            lo <= i <= hi <= v.len(),
            r@ == v@.subrange(lo as int, i as int),
        decreases hi - i,
    {
        r.push(v[i]);
        i = i + 1;
        assert(r@ =~= v@.subrange(lo as int, i as int));
    }
    r
}

/// `s.trim().to_string()`.
pub fn trim_string(s: &str) -> (r: String)
    ensures
        r@ == trim(s@),
{
    let v = chars_of(s);
    let (lo, hi) = trim_bounds(&v, None);
    string_of_range(&v, lo, hi)
}

/// Whether `s.trim()` is empty.
pub fn is_blank(s: &str) -> (b: bool)
    ensures
        b == (trim(s@).len() == 0),
{
    let v = chars_of(s);
    let (lo, hi) = trim_bounds(&v, None);
    lo == hi
}

/// `s.trim_matches(c).to_string()`.
pub fn trim_matches_string(s: &str, c: char) -> (r: String)
    ensures
        r@ == trim_matches(s@, c),
{
    let v = chars_of(s);
    let (lo, hi) = trim_bounds(&v, Some(c));
    string_of_range(&v, lo, hi)
}

/// `s.trim_end_matches(c).to_string()`.
pub fn trim_end_matches_string(s: &str, c: char) -> (r: String)
    ensures
        r@ == trim_end_matches(s@, c),
{
    let v = chars_of(s);
    let hi = trim_end_index(&v, 0, Some(c));
    assert(v@.subrange(0, v.len() as int) =~= v@);
    string_of_range(&v, 0, hi)
}

/// The ASCII digit for `d < 10`.
pub open spec fn digit_char(d: nat) -> char {
    ((d + 48) as u8) as char
}

/// Decimal rendering of a natural number, as `Display` for unsigned integers writes it.
pub open spec fn decimal(n: nat) -> Seq<char>
    decreases n,
{
    if n < 10 {
        seq![digit_char(n)]
    } else {
        decimal(n / 10).push(digit_char(n % 10))
    }
}

/// `n.to_string()` for an unsigned integer.
pub fn decimal_string(n: u64) -> (s: String)
    ensures
        s@ == decimal(n as nat),
    decreases n,
{
    if n < 10 {
        let mut s = String::new();
        s.push(((n as u8) + 48) as char);
        s
    } else {
        let mut s = decimal_string(n / 10);
        s.push((((n % 10) as u8) + 48) as char);
        s
    }
}

/// `c` repeated `n` times.
pub open spec fn repeat(c: char, n: nat) -> Seq<char> {
    Seq::new(n, |i: int| c)
}

/// `s` right-aligned in a field of `width` characters filled with `fill`
/// (`{:0>w}` / `{:02}` for non-negative numbers).
pub open spec fn pad_left(s: Seq<char>, width: nat, fill: char) -> Seq<char> {
    if s.len() < width {
        repeat(fill, (width - s.len()) as nat) + s
    } else {
        s
    }
}

/// `s` left-aligned in a field of `width` characters filled with spaces (`{:<w}`).
pub open spec fn pad_right(s: Seq<char>, width: nat) -> Seq<char> {
    if s.len() < width {
        s + repeat(' ', (width - s.len()) as nat)
    } else {
        s
    }
}

/// Zero-padded decimal of `n` with at least `width` digits.
pub fn decimal_padded(n: u64, width: usize) -> (s: String)
    ensures
        s@ == pad_left(decimal(n as nat), width as nat, '0'),
{
    let d = decimal_string(n);
    let dv = chars_of(d.as_str());
    let mut s = String::new();
    let mut k: usize = 0;
    let fill: usize = if dv.len() < width {
        width - dv.len()
    } else {
        0
    };
    while k < fill
        invariant
            k <= fill,
            s@ == repeat('0', k as nat),
        decreases fill - k,
    {
        s.push('0');
        k = k + 1;
        assert(s@ =~= repeat('0', k as nat));
    }
    s.append(d.as_str());
    assert(s@ =~= pad_left(decimal(n as nat), width as nat, '0'));
    s
}

/// `s` padded with trailing spaces to `width` characters.
pub fn pad_right_string(s: &str, width: usize) -> (r: String)
    ensures
        r@ == pad_right(s@, width as nat),
{
    let v = chars_of(s);
    let mut r = string_of(&v);
    let fill: usize = if v.len() < width {
        width - v.len()
    } else {
        0
    };
    let mut k: usize = 0;
    while k < fill
        invariant
            k <= fill,
            r@ == s@ + repeat(' ', k as nat),
        decreases fill - k,
    {
        r.push(' ');
        k = k + 1;
        assert(r@ =~= s@ + repeat(' ', k as nat));
    }
    assert(r@ =~= pad_right(s@, width as nat));
    r
}

/// `p` occurs in `s` starting at index `i`.
pub open spec fn occurs_at(s: Seq<char>, p: Seq<char>, i: int) -> bool {
    0 <= i && i + p.len() <= s.len() && s.subrange(i, i + p.len()) == p
}

/// `str::starts_with`.
pub open spec fn starts_with(s: Seq<char>, p: Seq<char>) -> bool {
    occurs_at(s, p, 0)
}

/// `str::ends_with`.
pub open spec fn ends_with(s: Seq<char>, p: Seq<char>) -> bool {
    p.len() <= s.len() && occurs_at(s, p, s.len() - p.len())
}

/// `str::contains` with a string pattern.
pub open spec fn contains(s: Seq<char>, p: Seq<char>) -> bool {
    exists|i: int| occurs_at(s, p, i)
}

/// `str::find`: the first index at which `p` occurs, if any.
pub open spec fn find(s: Seq<char>, p: Seq<char>) -> Option<int> {
    if contains(s, p) {
        Some(choose|i: int| occurs_at(s, p, i) && forall|j: int| 0 <= j < i ==> !occurs_at(s, p, j))
    } else {
        None
    }
}

pub fn occurs_at_exec(s: &Vec<char>, p: &Vec<char>, i: usize) -> (b: bool)
    ensures
        b == occurs_at(s@, p@, i as int),
{
    if i > s.len() || p.len() > s.len() - i {
        return false;
    }
    let mut k: usize = 0;
    while k < p.len()
        invariant
            i + p.len() <= s.len(),
            k <= p.len(),
            forall|m: int| 0 <= m < k ==> s@[i + m] == p@[m],
        decreases p.len() - k,
    {
        if s[i + k] != p[k] {
            assert(s@.subrange(i as int, i + p.len())[k as int] != p@[k as int]);
            return false;
        }
        k = k + 1;
    }
    assert(s@.subrange(i as int, i + p.len()) =~= p@);
    true
}

/// First index at or after `from` where `p` occurs in `s`.
pub fn find_from(s: &Vec<char>, p: &Vec<char>, from: usize) -> (r: Option<usize>)
    ensures
        match r {
            Some(i) => from <= i && occurs_at(s@, p@, i as int) && forall|j: int|
                from <= j < i ==> !occurs_at(s@, p@, j),
            None => forall|j: int| from <= j ==> !occurs_at(s@, p@, j),
        },
{
    let mut i = from;
    while i <= s.len()
        invariant
            from <= i,
            forall|j: int| from <= j < i ==> !occurs_at(s@, p@, j),
        decreases s.len() + 1 - i,
    {
        if occurs_at_exec(s, p, i) {
            return Some(i);
        }
        if i == s.len() {
            return None;
        }
        i = i + 1;
    }
    None
}

pub proof fn lemma_find_is(s: Seq<char>, p: Seq<char>, i: int)
    requires
        occurs_at(s, p, i),
        forall|j: int| 0 <= j < i ==> !occurs_at(s, p, j),
    ensures
        find(s, p) == Some(i),
{
    let c = choose|x: int| occurs_at(s, p, x) && forall|j: int| 0 <= j < x ==> !occurs_at(s, p, j);
    assert(occurs_at(s, p, c));
    if c < i {
        assert(!occurs_at(s, p, c));
    }
    if i < c {
        assert(!occurs_at(s, p, i));
    }
}

/// `s.find(p)` over characters.
pub fn find_chars(s: &Vec<char>, p: &Vec<char>) -> (r: Option<usize>)
    ensures
        match r {
            Some(i) => find(s@, p@) == Some(i as int),
            None => find(s@, p@) is None,
        },
{
    let r = find_from(s, p, 0);
    match r {
        Some(i) => {
            proof {
                lemma_find_is(s@, p@, i as int);
            }
        },
        None => {
            assert(!contains(s@, p@)) by {
                if contains(s@, p@) {
                    let w = choose|i: int| occurs_at(s@, p@, i);
                    assert(occurs_at(s@, p@, w));
                }
            }
        },
    }
    r
}

/// Whether `p` occurs in `s`.
pub fn contains_chars(s: &Vec<char>, p: &Vec<char>) -> (b: bool)
    ensures
        b == contains(s@, p@),
{
    let r = find_from(s, p, 0);
    match r {
        Some(i) => {
            assert(occurs_at(s@, p@, i as int));
            true
        },
        None => {
            assert(!contains(s@, p@)) by {
                if contains(s@, p@) {
                    let w = choose|i: int| occurs_at(s@, p@, i);
                    assert(occurs_at(s@, p@, w));
                }
            }
            false
        },
    }
}

/// `s.contains(p)` for string slices.
pub fn str_contains(s: &str, p: &str) -> (b: bool)
    ensures
        b == contains(s@, p@),
{
    let sv = chars_of(s);
    let pv = chars_of(p);
    contains_chars(&sv, &pv)
}

/// `s.starts_with(p)` for string slices.
pub fn str_starts_with(s: &str, p: &str) -> (b: bool)
    ensures
        b == starts_with(s@, p@),
{
    let sv = chars_of(s);
    let pv = chars_of(p);
    occurs_at_exec(&sv, &pv, 0)
}

/// `s.ends_with(p)` for string slices.
pub fn str_ends_with(s: &str, p: &str) -> (b: bool)
    ensures
        b == ends_with(s@, p@),
{
    let sv = chars_of(s);
    let pv = chars_of(p);
    if pv.len() > sv.len() {
        false
    } else {
        occurs_at_exec(&sv, &pv, sv.len() - pv.len())
    }
}

/// `s == t` on string contents.
pub fn str_eq(s: &str, t: &str) -> (b: bool)
    ensures
        b == (s@ == t@),
{
    let sv = chars_of(s);
    let tv = chars_of(t);
    if sv.len() != tv.len() {
        return false;
    }
    let b = occurs_at_exec(&sv, &tv, 0);
    proof {
        if b {
            assert(sv@.subrange(0, tv@.len() as int) =~= sv@);
        } else {
            assert(sv@.subrange(0, tv@.len() as int) =~= sv@);
        }
    }
    b
}

/// Index of the last occurrence of `c` in `s`.
pub open spec fn last_index_of(s: Seq<char>, c: char) -> Option<int> {
    if exists|i: int| 0 <= i < s.len() && s[i] == c {
        Some(choose|i: int| 0 <= i < s.len() && s[i] == c && forall|j: int| i < j < s.len() ==> s[j] != c)
    } else {
        None
    }
}

/// `s.rfind(c)` over characters.
pub fn rfind_char(s: &Vec<char>, c: char) -> (r: Option<usize>)
    ensures
        match r {
            Some(i) => i < s.len() && last_index_of(s@, c) == Some(i as int),
            None => last_index_of(s@, c) is None,
        },
{
    let mut j: usize = s.len();
    while j > 0
        invariant
            j <= s.len(),
            forall|k: int| j <= k < s.len() ==> s@[k] != c,
        decreases j,
    {
        if s[j - 1] == c {
            proof {
                let i = (j - 1) as int;
                let w = choose|x: int| 0 <= x < s@.len() && s@[x] == c && forall|y: int| x < y < s@.len() ==> s@[y] != c;
                assert(0 <= w < s@.len() && s@[w] == c);
                if w < i {
                    assert(s@[i] == c);
                }
            }
            return Some(j - 1);
        }
        j = j - 1;
    }
    None
}

/// ASCII lowercase of one character (`char::to_ascii_lowercase`).
pub open spec fn ascii_lower(c: char) -> char {
    if 'A' <= c && c <= 'Z' {
        ((c as u32 + 32) as u8) as char
    } else {
        c
    }
}

/// `str::to_ascii_lowercase`.
pub open spec fn ascii_lower_seq(s: Seq<char>) -> Seq<char> {
    s.map_values(|c: char| ascii_lower(c))
}

pub fn ascii_lower_char(c: char) -> (r: char)
    ensures
        r == ascii_lower(c),
{
    if 'A' <= c && c <= 'Z' {
        ((c as u8) + 32) as char
    } else {
        c
    }
}

/// `s.to_ascii_lowercase()` as characters.
pub fn ascii_lower_chars(s: &str) -> (r: Vec<char>)
    ensures
        r@ == ascii_lower_seq(s@),
{
    let v = chars_of(s);
    let mut r: Vec<char> = Vec::new();
    let mut i: usize = 0;
    while i < v.len()
        invariant
            i <= v.len(),
            v@ == s@,
            r@ == ascii_lower_seq(v@.subrange(0, i as int)),
        decreases v.len() - i,
    {
        r.push(ascii_lower_char(v[i]));
        i = i + 1;
        assert(r@ =~= ascii_lower_seq(v@.subrange(0, i as int)));
    }
    assert(v@.subrange(0, v.len() as int) =~= v@);
    r
}

/// `str::replace` with a non-empty pattern: left-to-right, non-overlapping.
pub open spec fn replace(s: Seq<char>, from: Seq<char>, to: Seq<char>) -> Seq<char>
    decreases s.len(),
{
    if from.len() == 0 || s.len() == 0 {
        s
    } else if occurs_at(s, from, 0) {
        to + replace(s.subrange(from.len() as int, s.len() as int), from, to)
    } else {
        seq![s[0]] + replace(s.drop_first(), from, to)
    }
}

/// `s.replace(from, to)`.
pub fn replace_string(s: &str, from: &str, to: &str) -> (r: String)
    requires
        from@.len() > 0,
    ensures
        r@ == replace(s@, from@, to@),
{
    let v = chars_of(s);
    let f = chars_of(from);
    let mut r = String::new();
    let mut i: usize = 0;
    assert(v@.subrange(0, v.len() as int) =~= v@);
    while i < v.len()
        invariant
            i <= v.len(),
            v@ == s@,
            f@ == from@,
            f@.len() > 0,
            r@ + replace(v@.subrange(i as int, v.len() as int), f@, to@) == replace(v@, f@, to@),
        decreases v.len() - i,
    {
        let ghost rest = v@.subrange(i as int, v.len() as int);
        if occurs_at_exec(&v, &f, i) {
            assert(occurs_at(rest, f@, 0)) by {
                assert(rest.subrange(0, f@.len() as int) =~= v@.subrange(i as int, i + f@.len()));
            }
            assert(rest.subrange(f@.len() as int, rest.len() as int) =~= v@.subrange(
                i + f@.len(),
                v.len() as int,
            ));
            r.append(to);
            assert(r@ + replace(v@.subrange(i + f@.len(), v.len() as int), f@, to@) =~= replace(
                v@,
                f@,
                to@,
            ));
            i = i + f.len();
        } else {
            assert(!occurs_at(rest, f@, 0)) by {
                if occurs_at(rest, f@, 0) {
                    assert(rest.subrange(0, f@.len() as int) =~= v@.subrange(
                        i as int,
                        i + f@.len(),
                    ));
                }
            }
            assert(rest.drop_first() =~= v@.subrange(i + 1, v.len() as int));
            r.push(v[i]);
            assert(r@ + replace(v@.subrange(i + 1, v.len() as int), f@, to@) =~= replace(
                v@,
                f@,
                to@,
            ));
            i = i + 1;
        }
    }
    assert(v@.subrange(v.len() as int, v.len() as int) =~= Seq::<char>::empty());
    assert(r@ =~= replace(v@, f@, to@));
    r
}

/// Pieces joined with `sep` between neighbours (`[..].join(sep)`).
pub open spec fn join_with(words: Seq<Seq<char>>, sep: Seq<char>) -> Seq<char>
    decreases words.len(),
{
    if words.len() == 0 {
        Seq::<char>::empty()
    } else if words.len() == 1 {
        words[0]
    } else {
        join_with(words.drop_last(), sep) + sep + words.last()
    }
}

/// The views of a sequence of strings.
pub open spec fn views(v: Seq<String>) -> Seq<Seq<char>> {
    v.map_values(|s: String| s@)
}

pub proof fn lemma_join_step(words: Seq<Seq<char>>, sep: Seq<char>, i: int)
    requires
        0 <= i,
        i + 2 <= words.len(),
    ensures
        join_with(words.subrange(0, i + 2), sep) == join_with(words.subrange(0, i + 1), sep) + sep
            + words[i + 1],
{
    let w = words.subrange(0, i + 2);
    assert(w.drop_last() =~= words.subrange(0, i + 1));
    assert(w.last() == words[i + 1]);
}

/// `parts.join(sep)`.
pub fn join_strings(parts: &Vec<String>, sep: &str) -> (r: String)
    ensures
        r@ == join_with(views(parts@), sep@),
{
    let ghost words = views(parts@);
    let mut out = String::new();
    if parts.len() == 0 {
        return out;
    }
    out.append(parts[0].as_str());
    assert(words.subrange(0, 1) =~= seq![parts@[0]@]);
    let mut i: usize = 0;
    while i + 1 < parts.len()
        invariant
            i < parts.len(),
            words == views(parts@),
            out@ == join_with(words.subrange(0, i + 1), sep@),
        decreases parts.len() - i,
    {
        out.append(sep);
        out.append(parts[i + 1].as_str());
        proof {
            lemma_join_step(words, sep@, i as int);
        }
        i = i + 1;
    }
    assert(words.subrange(0, parts.len() as int) =~= words);
    out
}

/// Appends a copy of `s` to a list of strings.
pub fn push_text(v: &mut Vec<String>, s: &str)
    ensures
        views(final(v)@) == views(old(v)@).push(s@),
{
    let ghost before = v@;
    v.push(s.to_string());
    assert(views(v@) =~= views(before).push(s@));
}

/// Appends copies of all of `w` to `v`.
pub fn push_all(v: &mut Vec<String>, w: &Vec<String>)
    ensures
        views(final(v)@) == views(old(v)@) + views(w@),
{
    let ghost start = views(v@);
    let mut i: usize = 0;
    while i < w.len()
        invariant
            i <= w.len(),
            views(v@) == start + views(w@).subrange(0, i as int),
        decreases w.len() - i,
    {
        let ghost before = v@;
        let c: String = w[i].clone();
        assert(c@ == w@[i as int]@);
        v.push(c);
        assert(views(v@) =~= views(before).push(c@));
        assert(views(w@).subrange(0, i + 1) =~= views(w@).subrange(0, i as int).push(c@));
        assert(views(v@) =~= start + views(w@).subrange(0, i + 1));
        i = i + 1;
    }
    assert(views(w@).subrange(0, w.len() as int) =~= views(w@));
}

/// Index of the first `c` in `s`.
#[verifier::opaque]
pub open spec fn first_index_of(s: Seq<char>, c: char) -> Option<int> {
    if exists|i: int| 0 <= i < s.len() && s[i] == c {
        Some(choose|i: int| 0 <= i < s.len() && s[i] == c && forall|j: int| 0 <= j < i ==> s[j] != c)
    } else {
        None
    }
}

/// First index of `c` at or after `from`.
pub fn find_char_from(s: &Vec<char>, c: char, from: usize) -> (r: Option<usize>)
    requires
        from <= s.len(),
    ensures
        match r {
            Some(i) => from <= i < s.len() && s@[i as int] == c && forall|j: int|
                from <= j < i ==> s@[j] != c,
            None => forall|j: int| from <= j < s.len() ==> s@[j] != c,
        },
{
    let mut i = from;
    while i < s.len()
        invariant
            from <= i <= s.len(),
            forall|j: int| from <= j < i ==> s@[j] != c,
        decreases s.len() - i,
    {
        if s[i] == c {
            return Some(i);
        }
        i = i + 1;
    }
    None
}

/// `first_index_of` on a suffix, from an index search on the whole.
pub proof fn lemma_first_index_of_suffix(s: Seq<char>, c: char, from: int, i: Option<int>)
    requires
        0 <= from <= s.len(),
        match i {
            Some(k) => from <= k < s.len() && s[k] == c && forall|j: int| from <= j < k ==> s[j] != c,
            None => forall|j: int| from <= j < s.len() ==> s[j] != c,
        },
    ensures
        first_index_of(s.subrange(from, s.len() as int), c) == match i {
            Some(k) => Some(k - from),
            None => None::<int>,
        },
{
    reveal(first_index_of);
    let t = s.subrange(from, s.len() as int);
    match i {
        Some(k) => {
            assert(t[k - from] == c);
            let w = choose|x: int| 0 <= x < t.len() && t[x] == c && forall|j: int| 0 <= j < x ==> t[j] != c;
            assert(0 <= w < t.len() && t[w] == c);
            if w < k - from {
                assert(s[from + w] == c);
            }
            if w > k - from {
                assert(t[k - from] != c);
            }
        },
        None => {
            if exists|x: int| 0 <= x < t.len() && t[x] == c {
                let x = choose|x: int| 0 <= x < t.len() && t[x] == c;
                assert(s[from + x] == c);
            }
        },
    }
}

/// A line without the `\r` of a `\r\n` ending.
pub open spec fn strip_cr(l: Seq<char>) -> Seq<char> {
    if l.len() > 0 && l.last() == '\r' {
        l.drop_last()
    } else {
        l
    }
}

/// `str::lines`: split at `\n`, dropping a `\r` just before it; a final line
/// ending is optional.
#[verifier::opaque]
pub open spec fn lines_of(s: Seq<char>) -> Seq<Seq<char>>
    decreases s.len(),
{
    if s.len() == 0 {
        Seq::<Seq<char>>::empty()
    } else {
        match first_index_of(s, '\n') {
            None => seq![s],
            Some(i) => if 0 <= i < s.len() {
                seq![strip_cr(s.subrange(0, i))] + lines_of(s.subrange(i + 1, s.len() as int))
            } else {
                seq![s]
            },
        }
    }
}

/// One unfolding of `lines_of`.
pub proof fn lemma_lines_unfold(s: Seq<char>)
    requires
        s.len() > 0,
    ensures
        lines_of(s) == match first_index_of(s, '\n') {
            None => seq![s],
            Some(i) => if 0 <= i < s.len() {
                seq![strip_cr(s.subrange(0, i))] + lines_of(s.subrange(i + 1, s.len() as int))
            } else {
                seq![s]
            },
        },
{
    reveal(lines_of);
}

pub proof fn lemma_lines_empty()
    ensures
        lines_of(Seq::<char>::empty()) == Seq::<Seq<char>>::empty(),
{
    reveal(lines_of);
}

/// The step of `lines`: the line at `i` ends at `k` (a `\n`) or at the end.
proof fn lemma_next_line(v: Seq<char>, i: int, k: Option<int>, hi: int)
    requires
        0 <= i < v.len(),
        match k {
            Some(k) => i <= k < v.len() && v[k] == '\n' && (forall|j: int| i <= j < k ==> v[j] != '\n')
                && hi == (if k > i && v[k - 1] == '\r' {
                k - 1
            } else {
                k
            }),
            None => (forall|j: int| i <= j < v.len() ==> v[j] != '\n') && hi == v.len(),
        },
    ensures
        lines_of(v.subrange(i, v.len() as int)) == seq![v.subrange(i, hi)] + lines_of(
            v.subrange(
                match k {
                    Some(k) => k + 1,
                    None => v.len() as int,
                },
                v.len() as int,
            ),
        ),
{
    let rest = v.subrange(i, v.len() as int);
    lemma_first_index_of_suffix(v, '\n', i, k);
    lemma_lines_unfold(rest);
    match k {
        None => {
            lemma_lines_empty();
            assert(v.subrange(v.len() as int, v.len() as int) =~= Seq::<char>::empty());
            assert(v.subrange(i, hi) =~= rest);
        },
        Some(k) => {
            let l = rest.subrange(0, k - i);
            assert(l =~= v.subrange(i, k));
            if k > i && v[k - 1] == '\r' {
                assert(l.drop_last() =~= v.subrange(i, hi));
            }
            assert(rest.subrange(k - i + 1, rest.len() as int) =~= v.subrange(k + 1, v.len() as int));
        },
    }
}

/// The line that starts at `v[i]`, and where the next one starts.
fn next_line(v: &Vec<char>, i: usize) -> (r: (String, usize))
    requires
        i < v.len(),
    ensures
        i < r.1 <= v.len(),
        lines_of(v@.subrange(i as int, v.len() as int)) == seq![r.0@] + lines_of(
            v@.subrange(r.1 as int, v.len() as int),
        ),
{
    let found = find_char_from(v, '\n', i);
    match found {
        None => {
            let line = string_of_range(v, i, v.len());
            proof {
                lemma_next_line(v@, i as int, None, v.len() as int);
            }
            (line, v.len())
        },
        Some(k) => {
            let mut hi = k;
            if hi > i && v[hi - 1] == '\r' {
                hi = hi - 1;
            }
            let line = string_of_range(v, i, hi);
            proof {
                lemma_next_line(v@, i as int, Some(k as int), hi as int);
            }
            (line, k + 1)
        },
    }
}

/// The lines of `s`, as `str::lines` gives them.
pub fn lines(s: &str) -> (r: Vec<String>)
    ensures
        views(r@) == lines_of(s@),
{
    let v = chars_of(s);
    let mut out: Vec<String> = Vec::new();
    let mut i: usize = 0;
    assert(v@.subrange(0, v.len() as int) =~= v@);
    while i < v.len()
        invariant
            i <= v.len(),
            v@ == s@,
            views(out@) + lines_of(v@.subrange(i as int, v.len() as int)) == lines_of(s@),
        decreases v.len() - i,
    {
        let (line, next) = next_line(&v, i);
        let ghost before = views(out@);
        let ghost later = lines_of(v@.subrange(next as int, v.len() as int));
        out.push(line);
        assert(views(out@) =~= before.push(line@));
        assert(views(out@) + later =~= before + (seq![line@] + later));
        i = next;
    }
    assert(v@.subrange(i as int, v.len() as int) =~= Seq::<char>::empty());
    proof {
        lemma_lines_empty();
    }
    assert(views(out@) =~= lines_of(s@));
    out
}

/// `str::split` at a character: every piece, empty ones included.
#[verifier::opaque]
pub open spec fn split_at_char(s: Seq<char>, c: char) -> Seq<Seq<char>>
    decreases s.len(),
{
    match first_index_of(s, c) {
        None => seq![s],
        Some(i) => if 0 <= i < s.len() {
            seq![s.subrange(0, i)] + split_at_char(s.subrange(i + 1, s.len() as int), c)
        } else {
            seq![s]
        },
    }
}

/// The piece of `s` that starts at `s[i]`, and where the next one starts
/// (`None` when it is the last piece).
fn next_piece(s: &Vec<char>, c: char, i: usize) -> (r: (Vec<char>, Option<usize>))
    requires
        i <= s.len(),
    ensures
        match r.1 {
            Some(n) => i < n <= s.len() && split_at_char(s@.subrange(i as int, s.len() as int), c)
                == seq![r.0@] + split_at_char(s@.subrange(n as int, s.len() as int), c),
            None => split_at_char(s@.subrange(i as int, s.len() as int), c) == seq![r.0@],
        },
{
    let ghost rest = s@.subrange(i as int, s.len() as int);
    let found = find_char_from(s, c, i);
    proof {
        lemma_first_index_of_suffix(s@, c, i as int, match found {
            Some(k) => Some(k as int),
            None => None::<int>,
        });
        reveal(split_at_char);
    }
    match found {
        None => {
            let piece = crate::redact::vec_range(s, i, s.len());
            assert(piece@ =~= rest);
            (piece, None)
        },
        Some(k) => {
            let piece = crate::redact::vec_range(s, i, k);
            proof {
                assert(rest.subrange(0, k - i) =~= s@.subrange(i as int, k as int));
                assert(rest.subrange(k - i + 1, rest.len() as int) =~= s@.subrange(
                    k + 1,
                    s.len() as int,
                ));
            }
            (piece, Some(k + 1))
        },
    }
}

/// The views of a sequence of character vectors.
pub open spec fn char_views(v: Seq<Vec<char>>) -> Seq<Seq<char>> {
    v.map_values(|p: Vec<char>| p@)
}

/// The pieces of `s` between occurrences of `c`.
pub fn split_char(s: &Vec<char>, c: char) -> (r: Vec<Vec<char>>)
    ensures
        char_views(r@) == split_at_char(s@, c),
{
    let mut out: Vec<Vec<char>> = Vec::new();
    let mut i: usize = 0;
    assert(s@.subrange(0, s.len() as int) =~= s@);
    loop
        invariant
            i <= s.len(),
            char_views(out@) + split_at_char(s@.subrange(i as int, s.len() as int), c)
                == split_at_char(s@, c),
        decreases s.len() - i,
    {
        let (piece, next) = next_piece(s, c, i);
        let ghost before = char_views(out@);
        out.push(piece);
        assert(char_views(out@) =~= before.push(piece@));
        match next {
            None => {
                assert(char_views(out@) =~= before + seq![piece@]);
                return out;
            },
            Some(n) => {
                let ghost later = split_at_char(s@.subrange(n as int, s.len() as int), c);
                assert(char_views(out@) + later =~= before + (seq![piece@] + later));
                i = n;
            },
        }
    }
}

/// The value of an ASCII decimal digit string.
pub open spec fn digits_value(s: Seq<char>) -> nat
    decreases s.len(),
{
    if s.len() == 0 {
        0
    } else {
        digits_value(s.drop_last()) * 10 + (s.last() as nat - 48) as nat
    }
}

/// All characters are ASCII digits.
pub open spec fn all_digits(s: Seq<char>) -> bool {
    forall|i: int| 0 <= i < s.len() ==> '0' <= #[trigger] s[i] <= '9'
}

/// `str::parse::<u64>`: an optional `+`, then one or more ASCII digits whose
/// value fits in 64 bits.
pub open spec fn parse_u64_spec(s: Seq<char>) -> Option<u64> {
    let d = if s.len() > 0 && s[0] == '+' {
        s.drop_first()
    } else {
        s
    };
    if d.len() > 0 && all_digits(d) && digits_value(d) <= u64::MAX {
        Some(digits_value(d) as u64)
    } else {
        None
    }
}

/// `s.parse::<u64>().ok()` over characters.
pub fn parse_u64(s: &Vec<char>) -> (r: Option<u64>)
    ensures
        r == parse_u64_spec(s@),
{
    let start: usize = if s.len() > 0 && s[0] == '+' {
        1
    } else {
        0
    };
    let ghost d = if s@.len() > 0 && s@[0] == '+' {
        s@.drop_first()
    } else {
        s@
    };
    assert(d =~= s@.subrange(start as int, s.len() as int));
    if start == s.len() {
        return None;
    }
    let mut acc: u64 = 0;
    let mut i = start;
    while i < s.len()
        invariant
            start <= i <= s.len(),
            d == s@.subrange(start as int, s.len() as int),
            d == (if s@.len() > 0 && s@[0] == '+' {
                s@.drop_first()
            } else {
                s@
            }),
            all_digits(s@.subrange(start as int, i as int)),
            acc as nat == digits_value(s@.subrange(start as int, i as int)),
        decreases s.len() - i,
    {
        let c = s[i];
        let ghost pre = s@.subrange(start as int, i as int);
        let ghost next = s@.subrange(start as int, i + 1);
        assert(next.drop_last() =~= pre);
        if !('0' <= c && c <= '9') {
            assert(!all_digits(d)) by {
                assert(d[i - start] == c);
            }
            return None;
        }
        let digit = (c as u32 - 48) as u64;
        assert(digits_value(next) == digits_value(pre) * 10 + digit);
        if acc > (u64::MAX - digit) / 10 {
            proof {
                lemma_digits_value_prefix_bound(d, i + 1 - start);
                assert(d.subrange(0, i + 1 - start) =~= next);
                assert(digits_value(next) > u64::MAX) by (nonlinear_arith)
                    requires
                        acc > (u64::MAX - digit) / 10,
                        digits_value(next) == acc * 10 + digit,
                        digit <= 9,
                ;
            }
            return None;
        }
        assert(acc * 10 + digit <= u64::MAX) by (nonlinear_arith)
            requires
                acc <= (u64::MAX - digit) / 10,
                digit <= 9,
        ;
        acc = acc * 10 + digit;
        i = i + 1;
        assert(all_digits(s@.subrange(start as int, i as int)));
    }
    assert(s@.subrange(start as int, s.len() as int) == d);
    Some(acc)
}

/// A prefix of a digit string has no larger value than the whole.
pub proof fn lemma_digits_value_prefix_bound(d: Seq<char>, k: int)
    requires
        0 <= k <= d.len(),
        all_digits(d.subrange(0, k)) ==> true,
    ensures
        all_digits(d) ==> digits_value(d.subrange(0, k)) <= digits_value(d),
    decreases d.len() - k,
{
    if k < d.len() && all_digits(d) {
        lemma_digits_value_prefix_bound(d, k + 1);
        let a = d.subrange(0, k + 1);
        assert(a.drop_last() =~= d.subrange(0, k));
        assert('0' <= a.last() <= '9');
    } else if k == d.len() {
        assert(d.subrange(0, k) =~= d);
    }
}

} // verus!
