//! Masking of stream keys in keys, publish URLs and ffmpeg command lines.
use vstd::prelude::*;
use vstd::string::*;

use crate::text::{
    ascii_lower_chars, ascii_lower_seq, chars_of, contains, contains_chars, find, find_chars,
    find_from, is_ws, join_with, lemma_find_is, lemma_join_step, views, last_index_of, occurs_at, repeat, replace, replace_string, rfind_char,
    starts_with, str_contains, string_of, string_of_range, strips, trim, trim_chars,
    trim_end_by, trim_start_by,
};

verus! {

/// The masked form of a secret: only the last four characters stay visible.
pub open spec fn masked_key(key: Seq<char>) -> Seq<char> {
    let t = trim(key);
    if t.len() == 0 {
        Seq::<char>::empty()
    } else if t.len() <= 4 {
        repeat('*', t.len())
    } else {
        repeat('*', 3) + t.subrange(t.len() - 4, t.len() as int)
    }
}

/// Mask a secret so only the last 4 characters remain visible.
/// Keys containing `/` or `?` are treated as a single token (never sliced on those).
pub fn redact_key(key: &str) -> (r: String)
    ensures
        r@ == masked_key(key@),
{
    let t = trim_chars(key);
    let mut out = String::new();
    if t.len() == 0 {
        return out;
    }
    if t.len() <= 4 {
        let mut k: usize = 0;
        while k < t.len()
            invariant
                k <= t.len(),
                out@ == repeat('*', k as nat),
            decreases t.len() - k,
        {
            out.push('*');
            k = k + 1;
            assert(out@ =~= repeat('*', k as nat));
        }
        return out;
    }
    out.push('*');
    out.push('*');
    out.push('*');
    assert(out@ =~= repeat('*', 3));
    let mut i = t.len() - 4;
    while i < t.len()
        invariant
            t.len() > 4,
            t.len() - 4 <= i <= t.len(),
            out@ == repeat('*', 3) + t@.subrange(t.len() - 4, i as int),
        decreases t.len() - i,
    {
        out.push(t[i]);
        i = i + 1;
        assert(out@ =~= repeat('*', 3) + t@.subrange(t.len() - 4, i as int));
    }
    out
}

/// Masking a key twice gives what masking it once gives.
pub proof fn lemma_masking_is_idempotent(key: Seq<char>)
    ensures
        masked_key(masked_key(key)) == masked_key(key),
{
    let m = masked_key(key);
    let t = trim(key);
    lemma_trim_fixed(key);
    if t.len() == 0 {
    } else if t.len() <= 4 {
        assert(trim(m) == m);
    } else {
        assert(trim(m) == m);
        assert(m.len() == 7);
        assert(m.subrange(3, 7) =~= t.subrange(t.len() - 4, t.len() as int));
        assert(repeat('*', 3) + m.subrange(3, 7) =~= m);
    }
}

/// A masked key shows at most its last four characters: everything before
/// them is `*`, and what is shown is the end of the trimmed key.
pub proof fn lemma_at_most_four_shown(key: Seq<char>)
    ensures
        forall|i: int| 0 <= i < masked_key(key).len() - 4 ==> masked_key(key)[i] == '*',
        masked_key(key).len() <= 7,
        ({
            let m = masked_key(key);
            let t = trim(key);
            let shown: int = if m.len() > 4 { 4 } else { 0 };
            m.subrange(m.len() - shown, m.len() as int) == t.subrange(t.len() - shown, t.len() as int)
        }),
{
    let m = masked_key(key);
    let t = trim(key);
    if t.len() > 4 {
        assert(m.subrange(3, 7) =~= t.subrange(t.len() - 4, t.len() as int));
    } else {
        assert(m.subrange(m.len() as int, m.len() as int) =~= t.subrange(t.len() as int, t.len() as int));
    }
}

/// A masked key never holds the whole of a longer key: once a trimmed key has
/// more than four characters and no `*`, it does not appear in its masked form.
pub proof fn lemma_long_key_hidden(key: Seq<char>)
    requires
        trim(key).len() > 4,
        forall|i: int| 0 <= i < trim(key).len() ==> trim(key)[i] != '*',
    ensures
        !contains(masked_key(key), trim(key)),
{
    let m = masked_key(key);
    let t = trim(key);
    assert(m.len() == 7);
    assert forall|i: int| !occurs_at(m, t, i) by {
        if occurs_at(m, t, i) {
            assert(m.subrange(i, i + t.len())[0] == t[0]);
            assert(m[i] == '*');
        }
    }
}

/// A masked key has no white space at either end, so trimming leaves it as it is.
proof fn lemma_trim_fixed(key: Seq<char>)
    ensures
        trim(masked_key(key)) == masked_key(key),
{
    let m = masked_key(key);
    let t = trim(key);
    lemma_trim_ends_not_ws(key);
    if m.len() > 0 {
        assert(m[0] == '*');
        assert(!is_ws(m[0]));
        assert(!is_ws(m.last())) by {
            if t.len() <= 4 {
                assert(m.last() == '*');
            } else {
                assert(m.last() == t.last());
            }
        }
    }
    lemma_trim_of_clean(m);
}

/// Trimming leaves no white space at either end.
pub proof fn lemma_trim_ends_not_ws(s: Seq<char>)
    ensures
        trim(s).len() > 0 ==> !is_ws(trim(s)[0]) && !is_ws(trim(s).last()),
{
    lemma_trim_start_clean(s, None);
    let a = trim_start_by(s, None);
    lemma_trim_end_clean(a, None);
    lemma_trim_end_prefix(a, None);
}

pub proof fn lemma_trim_start_clean(s: Seq<char>, k: Option<char>)
    ensures
        trim_start_by(s, k).len() > 0 ==> !strips(k, trim_start_by(s, k)[0]),
    decreases s.len(),
{
    if s.len() > 0 && strips(k, s[0]) {
        lemma_trim_start_clean(s.drop_first(), k);
    }
}

pub proof fn lemma_trim_end_clean(s: Seq<char>, k: Option<char>)
    ensures
        trim_end_by(s, k).len() > 0 ==> !strips(k, trim_end_by(s, k).last()),
    decreases s.len(),
{
    if s.len() > 0 && strips(k, s.last()) {
        lemma_trim_end_clean(s.drop_last(), k);
    }
}

/// `trim_end_by` keeps a prefix of its input.
pub proof fn lemma_trim_end_prefix(s: Seq<char>, k: Option<char>)
    ensures
        trim_end_by(s, k).len() <= s.len(),
        trim_end_by(s, k) == s.subrange(0, trim_end_by(s, k).len() as int),
    decreases s.len(),
{
    if s.len() > 0 && strips(k, s.last()) {
        lemma_trim_end_prefix(s.drop_last(), k);
    } else {
        assert(s.subrange(0, s.len() as int) =~= s);
    }
}

/// A sequence with no white space at either end trims to itself.
pub proof fn lemma_trim_of_clean(s: Seq<char>)
    requires
        s.len() > 0 ==> !is_ws(s[0]) && !is_ws(s.last()),
    ensures
        trim(s) == s,
{
    assert(trim_start_by(s, None) == s);
    assert(trim_end_by(s, None) == s);
}

/// `str::to_ascii_lowercase(..).starts_with("rtmp://" | "rtmps://")`.
pub open spec fn is_rtmp_like(s: Seq<char>) -> bool {
    starts_with(ascii_lower_seq(s), "rtmp://"@) || starts_with(ascii_lower_seq(s), "rtmps://"@)
}

pub fn rtmp_like(s: &str) -> (b: bool)
    ensures
        b == is_rtmp_like(s@),
{
    let low = ascii_lower_chars(s);
    let a = chars_of("rtmp://");
    let b = chars_of("rtmps://");
    let r1 = find_from(&low, &a, 0);
    let r2 = find_from(&low, &b, 0);
    let x = match r1 {
        Some(i) => i == 0,
        None => false,
    };
    let y = match r2 {
        Some(i) => i == 0,
        None => false,
    };
    x || y
}

/// The masked form of a URL: an RTMP URL keeps everything up to its last `/`
/// and masks the rest as a key; other URLs are left as they are.
#[verifier::opaque]
pub open spec fn masked_url(url: Seq<char>) -> Seq<char> {
    if url.len() == 0 {
        Seq::<char>::empty()
    } else if !is_rtmp_like(url) {
        url
    } else {
        match last_index_of(url, '/') {
            Some(idx) if idx + 1 < url.len() => url.subrange(0, idx + 1) + masked_key(
                url.subrange(idx + 1, url.len() as int),
            ),
            _ => masked_key(url),
        }
    }
}

pub fn redact_url(url: &str) -> (r: String)
    ensures
        r@ == masked_url(url@),
{
    reveal(masked_url);
    let v = chars_of(url);
    if v.len() == 0 {
        return String::new();
    }
    if !rtmp_like(url) {
        return string_of(&v);
    }
    match rfind_char(&v, '/') {
        Some(idx) => {
            if idx + 1 < v.len() {
                let mut out = string_of_range(&v, 0, idx + 1);
                let key = string_of_range(&v, idx + 1, v.len());
                let masked = redact_key(key.as_str());
                out.append(masked.as_str());
                out
            } else {
                redact_key(url)
            }
        },
        None => redact_key(url),
    }
}

/// A publish URL has a path after the host: some `/` follows the first `://`.
pub open spec fn is_publish_url(s: Seq<char>) -> bool {
    match find(s, "://"@) {
        Some(i) => contains(s.subrange(i + 3, s.len() as int), "/"@),
        None => false,
    }
}

fn should_redact_rtmp(s: &str) -> (b: bool)
    ensures
        b == is_publish_url(s@),
{
    let v = chars_of(s);
    let sep = chars_of("://");
    let slash = chars_of("/");
    proof {
        reveal_strlit("://");
    }
    let found = find_from(&v, &sep, 0);
    match found {
        Some(i) => {
            proof {
                lemma_find_is(v@, sep@, i as int);
                assert(sep@.len() == 3);
                assert(occurs_at(v@, sep@, i as int));
                assert(i + sep@.len() <= v@.len());
                assert(i + 3 <= v.len());
            }
            let tail = vec_range(&v, i + 3, v.len());
            contains_chars(&tail, &slash)
        },
        None => {
            proof {
                if contains(v@, sep@) {
                    let w = choose|j: int| occurs_at(v@, sep@, j);
                    assert(occurs_at(v@, sep@, w));
                }
            }
            false
        },
    }
}

/// `find` reports an occurrence.
pub proof fn lemma_find_occurs(s: Seq<char>, p: Seq<char>)
    ensures
        find(s, p) matches Some(i) ==> occurs_at(s, p, i) && forall|j: int|
            0 <= j < i ==> !occurs_at(s, p, j),
        find(s, p) is None ==> forall|j: int| !occurs_at(s, p, j),
{
    if contains(s, p) {
        let w = choose|i: int| occurs_at(s, p, i);
        assert(occurs_at(s, p, w));
        lemma_first_occurrence_exists(s, p, w);
    }
}

/// If `p` occurs at `w`, it has a first occurrence.
proof fn lemma_first_occurrence_exists(s: Seq<char>, p: Seq<char>, w: int)
    requires
        occurs_at(s, p, w),
    ensures
        exists|i: int| occurs_at(s, p, i) && forall|j: int| 0 <= j < i ==> !occurs_at(s, p, j),
    decreases w,
{
    if exists|j: int| 0 <= j < w && occurs_at(s, p, j) {
        let j = choose|j: int| 0 <= j < w && occurs_at(s, p, j);
        lemma_first_occurrence_exists(s, p, j);
    } else {
        assert(occurs_at(s, p, w) && forall|j: int| 0 <= j < w ==> !occurs_at(s, p, j));
    }
}

/// `v[lo..hi]` as a vector.
pub fn vec_range(v: &Vec<char>, lo: usize, hi: usize) -> (r: Vec<char>)
    requires
        lo <= hi <= v.len(),
    ensures
        r@ == v@.subrange(lo as int, hi as int),
{
    let mut r: Vec<char> = Vec::new();
    let mut i = lo;
    while i < hi
        invariant
            lo <= i <= hi <= v.len(),
            r@ == v@.subrange(lo as int, i as int),
        decreases hi - i,
    {
        r.push(v[i]);
        i = i + 1;
        assert(r@ =~= v@.subrange(lo as int, i as int));
    }
    r
}

/// Characters that end a URL inside a tee spec.
pub open spec fn ends_token(c: char) -> bool {
    c == '|' || c == ' ' || c == '"' || c == '\''
}

/// Length of the URL token at the start of `t`: up to the first unescaped
/// `|`, space or quote; a backslash always takes the next character with it.
pub open spec fn token_len(t: Seq<char>) -> nat
    decreases t.len(),
{
    if t.len() == 0 {
        0
    } else if t[0] == '\\' {
        if t.len() == 1 {
            1
        } else {
            2 + token_len(t.subrange(2, t.len() as int))
        }
    } else if ends_token(t[0]) {
        0
    } else {
        1 + token_len(t.drop_first())
    }
}

/// An embedded RTMP URL begins at `i`: `rtmp://` or `rtmps://`, each also in
/// the escaped form `\://` that a tee spec uses.
pub open spec fn url_start_at(s: Seq<char>, i: int) -> bool {
    ||| occurs_at(s, "rtmp://"@, i)
    ||| occurs_at(s, "rtmp\\://"@, i)
    ||| occurs_at(s, "rtmps://"@, i)
    ||| occurs_at(s, "rtmps\\://"@, i)
}

/// Where the next embedded RTMP URL starts: the first index at which any of
/// its forms begins.
#[verifier::opaque]
pub open spec fn next_rtmp(s: Seq<char>) -> Option<int> {
    if exists|i: int| url_start_at(s, i) {
        Some(choose|i: int| url_start_at(s, i) && forall|j: int| 0 <= j < i ==> !url_start_at(s, j))
    } else {
        None
    }
}

/// The earlier of two found positions.
pub open spec fn earlier(a: Option<int>, b: Option<int>) -> Option<int> {
    match (a, b) {
        (Some(x), Some(y)) => if x <= y {
            Some(x)
        } else {
            Some(y)
        },
        (Some(x), None) => Some(x),
        (None, y) => y,
    }
}

pub open spec fn opt_int(o: Option<usize>) -> Option<int> {
    match o {
        Some(x) => Some(x as int),
        None => None,
    }
}

fn earlier_of(a: Option<usize>, b: Option<usize>) -> (r: Option<usize>)
    ensures
        opt_int(r) == earlier(opt_int(a), opt_int(b)),
{
    match (a, b) {
        (Some(x), Some(y)) => if x <= y {
            Some(x)
        } else {
            Some(y)
        },
        (Some(x), None) => Some(x),
        (None, y) => y,
    }
}

/// The first start of an embedded URL is at `m` when one starts there and none before.
pub proof fn lemma_next_rtmp_is(s: Seq<char>, m: int)
    requires
        url_start_at(s, m),
        forall|j: int| 0 <= j < m ==> !url_start_at(s, j),
    ensures
        next_rtmp(s) == Some(m),
{
    reveal(next_rtmp);
    assert(exists|i: int| url_start_at(s, i) && forall|j: int| 0 <= j < i ==> !url_start_at(s, j));
    let w = choose|i: int| url_start_at(s, i) && forall|j: int| 0 <= j < i ==> !url_start_at(s, j);
    assert(url_start_at(s, w));
    assert(0 <= m && 0 <= w);
    if w < m {
        assert(!url_start_at(s, w));
    }
    if m < w {
        assert(!url_start_at(s, m));
    }
}

/// What `next_rtmp` reports is a URL start with none before it.
pub proof fn lemma_next_rtmp_props(s: Seq<char>)
    ensures
        match next_rtmp(s) {
            Some(m) => url_start_at(s, m) && forall|j: int| 0 <= j < m ==> !url_start_at(s, j),
            None => forall|i: int| !url_start_at(s, i),
        },
{
    reveal(next_rtmp);
    if exists|i: int| url_start_at(s, i) {
        let w = choose|i: int| url_start_at(s, i);
        assert(url_start_at(s, w));
        lemma_first_url_start_exists(s, w);
    }
}

proof fn lemma_first_url_start_exists(s: Seq<char>, w: int)
    requires
        url_start_at(s, w),
    ensures
        exists|i: int| url_start_at(s, i) && forall|j: int| 0 <= j < i ==> !url_start_at(s, j),
    decreases w,
{
    if exists|j: int| 0 <= j < w && url_start_at(s, j) {
        let j = choose|j: int| 0 <= j < w && url_start_at(s, j);
        lemma_first_url_start_exists(s, j);
    } else {
        assert(url_start_at(s, w) && forall|j: int| 0 <= j < w ==> !url_start_at(s, j));
    }
}

/// The first URL start is the earliest of the first places where each form occurs.
pub proof fn lemma_next_rtmp_earliest(s: Seq<char>)
    ensures
        next_rtmp(s) == earlier(
            earlier(find(s, "rtmp://"@), find(s, "rtmp\\://"@)),
            earlier(find(s, "rtmps://"@), find(s, "rtmps\\://"@)),
        ),
{
    lemma_find_occurs(s, "rtmp://"@);
    lemma_find_occurs(s, "rtmp\\://"@);
    lemma_find_occurs(s, "rtmps://"@);
    lemma_find_occurs(s, "rtmps\\://"@);
    let e = earlier(
        earlier(find(s, "rtmp://"@), find(s, "rtmp\\://"@)),
        earlier(find(s, "rtmps://"@), find(s, "rtmps\\://"@)),
    );
    match e {
        Some(m) => {
            assert(url_start_at(s, m));
            assert forall|j: int| 0 <= j < m implies !url_start_at(s, j) by {}
            lemma_next_rtmp_is(s, m);
        },
        None => {
            assert forall|i: int| !url_start_at(s, i) by {}
            reveal(next_rtmp);
        },
    }
}

/// Each form of a URL start begins with `r`, and has no other `r`.
pub proof fn lemma_url_forms()
    ensures
        forall|k: int| 1 <= k < 7 ==> "rtmp://"@[k] != 'r',
        forall|k: int| 1 <= k < 8 ==> "rtmp\\://"@[k] != 'r',
        forall|k: int| 1 <= k < 8 ==> "rtmps://"@[k] != 'r',
        forall|k: int| 1 <= k < 9 ==> "rtmps\\://"@[k] != 'r',
        "rtmp://"@.len() == 7 && "rtmp://"@[0] == 'r',
        "rtmp\\://"@.len() == 8 && "rtmp\\://"@[0] == 'r',
        "rtmps://"@.len() == 8 && "rtmps://"@[0] == 'r',
        "rtmps\\://"@.len() == 9 && "rtmps\\://"@[0] == 'r',
{
    reveal_strlit("rtmp://");
    reveal_strlit("rtmp\\://");
    reveal_strlit("rtmps://");
    reveal_strlit("rtmps\\://");
}

/// A URL start lies inside the text and begins with `r`.
pub proof fn lemma_url_start_char(s: Seq<char>, i: int)
    requires
        url_start_at(s, i),
    ensures
        0 <= i < s.len(),
        s[i] == 'r',
{
    lemma_url_forms();
    if occurs_at(s, "rtmp://"@, i) {
        assert(s.subrange(i, i + 7)[0] == s[i]);
    } else if occurs_at(s, "rtmp\\://"@, i) {
        assert(s.subrange(i, i + 8)[0] == s[i]);
    } else if occurs_at(s, "rtmps://"@, i) {
        assert(s.subrange(i, i + 8)[0] == s[i]);
    } else {
        assert(s.subrange(i, i + 9)[0] == s[i]);
    }
}

/// A URL token with its key masked, keeping a tee spec's `\:` escaping.
pub open spec fn masked_token(tok: Seq<char>) -> Seq<char> {
    let url = replace(tok, "\\:"@, ":"@);
    if contains(tok, "\\:"@) {
        replace(masked_url(url), "://"@, "\\://"@)
    } else {
        masked_url(url)
    }
}

/// `s` with the key of every embedded RTMP URL masked.
pub open spec fn masked_embedded(s: Seq<char>) -> Seq<char>
    decreases s.len(),
{
    if s.len() == 0 {
        s
    } else {
        match next_rtmp(s) {
            None => s,
            Some(rel) => {
                let t = s.subrange(rel, s.len() as int);
                let n = token_len(t);
                if 0 <= rel && 0 < n && rel + n <= s.len() {
                    s.subrange(0, rel) + masked_token(s.subrange(rel, rel + n)) + masked_embedded(
                        s.subrange(rel + n, s.len() as int),
                    )
                } else {
                    s
                }
            },
        }
    }
}

/// The token scan stays inside its input and never stops before a
/// character that does not end a token.
pub proof fn lemma_token_len_bounds(t: Seq<char>)
    ensures
        token_len(t) <= t.len(),
        t.len() > 0 && !ends_token(t[0]) ==> token_len(t) > 0,
    decreases t.len(),
{
    if t.len() == 0 {
    } else if t[0] == '\\' {
        if t.len() > 1 {
            lemma_token_len_bounds(t.subrange(2, t.len() as int));
        }
    } else if ends_token(t[0]) {
    } else {
        lemma_token_len_bounds(t.drop_first());
    }
}

/// Length of the URL token starting at `v[start]`.
fn scan_token(v: &Vec<char>, start: usize) -> (n: usize)
    requires
        start <= v.len(),
    ensures
        n == token_len(v@.subrange(start as int, v.len() as int)),
        start + n <= v.len(),
{
    let mut k = start;
    proof {
        lemma_token_len_bounds(v@.subrange(start as int, v.len() as int));
    }
    while k < v.len()
        invariant
            start <= k <= v.len(),
            token_len(v@.subrange(start as int, v.len() as int)) == (k - start) + token_len(
                v@.subrange(k as int, v.len() as int),
            ),
        ensures
            start <= k <= v.len(),
            token_len(v@.subrange(start as int, v.len() as int)) == (k - start) + token_len(
                v@.subrange(k as int, v.len() as int),
            ),
            k == v.len() || token_len(v@.subrange(k as int, v.len() as int)) == 0,
        decreases v.len() - k,
    {
        let ghost t = v@.subrange(k as int, v.len() as int);
        let c = v[k];
        if c == '\\' {
            if k + 1 < v.len() {
                assert(t.subrange(2, t.len() as int) =~= v@.subrange(k + 2, v.len() as int));
                k = k + 2;
            } else {
                assert(v@.subrange(k + 1, v.len() as int) =~= Seq::<char>::empty());
                k = k + 1;
            }
            continue;
        }
        if c == '|' || c == ' ' || c == '"' || c == '\'' {
            assert(t[0] == c);
            assert(token_len(t) == 0);
            break;
        }
        assert(t.drop_first() =~= v@.subrange(k + 1, v.len() as int));
        k = k + 1;
    }
    proof {
        if k == v.len() {
            assert(v@.subrange(k as int, v.len() as int) =~= Seq::<char>::empty());
        }
    }
    k - start
}

/// Occurrences in a suffix are occurrences in the whole, shifted.
pub proof fn lemma_occurs_shift(s: Seq<char>, p: Seq<char>, i: int, j: int)
    requires
        0 <= i <= s.len(),
    ensures
        occurs_at(s.subrange(i, s.len() as int), p, j) <==> (j >= 0 && occurs_at(s, p, i + j)),
{
    let t = s.subrange(i, s.len() as int);
    if occurs_at(t, p, j) {
        assert(t.subrange(j, j + p.len()) =~= s.subrange(i + j, i + j + p.len()));
    }
    if j >= 0 && occurs_at(s, p, i + j) {
        assert(t.subrange(j, j + p.len()) =~= s.subrange(i + j, i + j + p.len()));
    }
}

/// First occurrence of `p` in `v[from..]`, relative to `from`.
fn find_in_rest(v: &Vec<char>, p: &Vec<char>, from: usize) -> (r: Option<usize>)
    requires
        from <= v.len(),
    ensures
        match r {
            Some(i) => find(v@.subrange(from as int, v.len() as int), p@) == Some(i as int)
                && from + i <= v.len(),
            None => find(v@.subrange(from as int, v.len() as int), p@) is None,
        },
{
    let ghost t = v@.subrange(from as int, v.len() as int);
    match find_from(v, p, from) {
        Some(i) => {
            proof {
                lemma_occurs_shift(v@, p@, from as int, i - from);
                assert forall|j: int| 0 <= j < i - from implies !occurs_at(t, p@, j) by {
                    lemma_occurs_shift(v@, p@, from as int, j);
                }
                lemma_find_occurs(t, p@);
                let w = choose|x: int|
                    occurs_at(t, p@, x) && forall|j: int| 0 <= j < x ==> !occurs_at(t, p@, j);
                assert(contains(t, p@));
                if w < i - from {
                } else if w > i - from {
                    assert(!occurs_at(t, p@, i - from));
                }
            }
            Some(i - from)
        },
        None => {
            proof {
                if contains(t, p@) {
                    let w = choose|x: int| occurs_at(t, p@, x);
                    lemma_occurs_shift(v@, p@, from as int, w);
                }
            }
            None
        },
    }
}

/// One URL token with its key masked.
fn mask_token(tok: &str) -> (r: String)
    ensures
        r@ == masked_token(tok@),
{
    proof {
        reveal_strlit("\\:");
    }
    let url = replace_string(tok, "\\:", ":");
    let masked = redact_url(url.as_str());
    if str_contains(tok, "\\:") {
        proof {
            reveal_strlit("://");
        }
        replace_string(masked.as_str(), "://", "\\://")
    } else {
        masked
    }
}

/// Where the next embedded URL starts in `v[i..]`, relative to `i`.
#[verifier::rlimit(50)]
fn next_url_in(v: &Vec<char>, i: usize) -> (r: Option<usize>)
    requires
        i <= v.len(),
    ensures
        opt_int(r) == next_rtmp(v@.subrange(i as int, v.len() as int)),
        r matches Some(rel) ==> i + rel < v.len() && v@[i + rel] == 'r',
{
    let ghost rest = v@.subrange(i as int, v.len() as int);
    let a = find_in_rest(v, &chars_of("rtmp://"), i);
    let b = find_in_rest(v, &chars_of("rtmp\\://"), i);
    let c = find_in_rest(v, &chars_of("rtmps://"), i);
    let d = find_in_rest(v, &chars_of("rtmps\\://"), i);
    let hit = earlier_of(earlier_of(a, b), earlier_of(c, d));
    assert(opt_int(hit) == next_rtmp(rest)) by {
        lemma_next_rtmp_earliest(rest);
    }
    assert(hit matches Some(rel) ==> rest[rel as int] == 'r' && rel < rest.len()) by {
        lemma_next_rtmp_props(rest);
        if let Some(rel) = hit {
            lemma_url_start_char(rest, rel as int);
        }
    }
    hit
}

/// One step of the scan over `v[i..]`: the text up to and including the next
/// URL token (masked), and the index just after it.
fn embedded_step(v: &Vec<char>, i: usize) -> (r: (String, usize))
    requires
        i < v.len(),
    ensures
        i < r.1 <= v.len(),
        r.0@ + masked_embedded(v@.subrange(r.1 as int, v.len() as int)) == masked_embedded(
            v@.subrange(i as int, v.len() as int),
        ),
{
    let ghost rest = v@.subrange(i as int, v.len() as int);
    let hit = next_url_in(v, i);
    match hit {
        None => {
            let tail = string_of_range(v, i, v.len());
            assert(v@.subrange(v.len() as int, v.len() as int) =~= Seq::<char>::empty());
            assert(tail@ + masked_embedded(v@.subrange(v.len() as int, v.len() as int)) =~= rest);
            (tail, v.len())
        },
        Some(rel) => {
            let start = i + rel;
            proof {
                assert(v@[start as int] == 'r');
                lemma_token_len_bounds(v@.subrange(start as int, v.len() as int));
                assert(rest.subrange(rel as int, rest.len() as int) =~= v@.subrange(
                    start as int,
                    v.len() as int,
                ));
            }
            let n = scan_token(v, start);
            let end = start + n;
            let mut out = string_of_range(v, i, start);
            let tok = string_of_range(v, start, end);
            let m = mask_token(tok.as_str());
            out.append(m.as_str());
            proof {
                assert(rest.subrange(0, rel as int) =~= v@.subrange(i as int, start as int));
                assert(rest.subrange(rel as int, rel + n) =~= v@.subrange(start as int, end as int));
                assert(rest.subrange(rel + n, rest.len() as int) =~= v@.subrange(
                    end as int,
                    v.len() as int,
                ));
            }
            (out, end)
        },
    }
}

#[verifier::rlimit(80)]
fn redact_embedded_rtmp(s: &str) -> (r: String)
    ensures
        r@ == masked_embedded(s@),
{
    let v = chars_of(s);
    let mut out = String::new();
    let mut i: usize = 0;
    assert(v@.subrange(0, v.len() as int) =~= v@);
    while i < v.len()
        invariant
            i <= v.len(),
            v@ == s@,
            out@ + masked_embedded(v@.subrange(i as int, v.len() as int)) == masked_embedded(s@),
        decreases v.len() - i,
    {
        let (piece, end) = embedded_step(&v, i);
        let ghost before = out@;
        let ghost later = masked_embedded(v@.subrange(end as int, v.len() as int));
        out.append(piece.as_str());
        assert(out@ + later =~= before + (piece@ + later));
        i = end;
    }
    assert(v@.subrange(i as int, v.len() as int) =~= Seq::<char>::empty());
    assert(out@ =~= masked_embedded(s@));
    out
}

/// One ffmpeg argument as it is shown: publish URLs get their keys masked.
pub open spec fn shown_arg(a: Seq<char>) -> Seq<char> {
    if is_publish_url(a) {
        masked_embedded(a)
    } else {
        a
    }
}

/// The command line as it is shown: the binary, then each argument masked.
pub open spec fn shown_command(bin: Seq<char>, args: Seq<Seq<char>>) -> Seq<char> {
    join_with(seq![bin] + args.map_values(|a: Seq<char>| shown_arg(a)), " "@)
}

fn show_arg(a: &str) -> (r: String)
    ensures
        r@ == shown_arg(a@),
{
    if should_redact_rtmp(a) {
        redact_embedded_rtmp(a)
    } else {
        let v = chars_of(a);
        string_of(&v)
    }
}

/// The shown words: the binary followed by each masked argument.
pub open spec fn shown_words(bin: Seq<char>, args: Seq<Seq<char>>) -> Seq<Seq<char>> {
    seq![bin] + args.map_values(|a: Seq<char>| shown_arg(a))
}

/// ffmpeg argv with the destination RTMP URL (last arg) masked.
pub fn redact_cmd(bin: &str, args: &[String]) -> (r: String)
    ensures
        r@ == shown_command(bin@, views(args@)),
{
    let ghost words = shown_words(bin@, views(args@));
    let mut out = String::new();
    out.append(bin);
    assert(words.subrange(0, 1) =~= seq![bin@]);
    assert(out@ == join_with(words.subrange(0, 1), " "@));
    let mut i: usize = 0;
    while i < args.len()
        invariant
            i <= args.len(),
            words == shown_words(bin@, views(args@)),
            words.len() == args.len() + 1,
            out@ == join_with(words.subrange(0, i + 1), " "@),
        decreases args.len() - i,
    {
        let shown = show_arg(args[i].as_str());
        let ghost before = out@;
        out.append(" ");
        out.append(shown.as_str());
        proof {
            assert(words[i + 1] == shown_arg(args@[i as int]@));
            lemma_join_step(words, " "@, i as int);
            assert(out@ =~= before + " "@ + words[i + 1]);
        }
        i = i + 1;
    }
    assert(words.subrange(0, args.len() + 1) =~= words);
    out
}

/// A URL with nothing a tee spec escapes or ends on.
pub open spec fn plain_url(s: Seq<char>) -> bool {
    forall|i: int| 0 <= i < s.len() ==> s[i] != '\\' && !ends_token(#[trigger] s[i])
}

proof fn lemma_plain_token_len(t: Seq<char>)
    requires
        plain_url(t),
    ensures
        token_len(t) == t.len(),
    decreases t.len(),
{
    if t.len() > 0 {
        assert(t[0] != '\\' && !ends_token(t[0]));
        assert(plain_url(t.drop_first())) by {
            assert forall|i: int| 0 <= i < t.drop_first().len() implies t.drop_first()[i] != '\\'
                && !ends_token(#[trigger] t.drop_first()[i]) by {
                assert(t.drop_first()[i] == t[i + 1]);
            }
        }
        lemma_plain_token_len(t.drop_first());
    }
}

/// Text without the pattern's first character is left alone by `replace`.
proof fn lemma_replace_absent(s: Seq<char>, from: Seq<char>, to: Seq<char>)
    requires
        from.len() > 0,
        forall|i: int| 0 <= i < s.len() ==> s[i] != from[0],
    ensures
        replace(s, from, to) == s,
        !contains(s, from),
    decreases s.len(),
{
    if s.len() > 0 {
        assert(!occurs_at(s, from, 0)) by {
            if occurs_at(s, from, 0) {
                assert(s.subrange(0, from.len() as int)[0] == s[0]);
            }
        }
        lemma_replace_absent(s.drop_first(), from, to);
        assert(seq![s[0]] + s.drop_first() =~= s);
    }
    assert forall|i: int| !occurs_at(s, from, i) by {
        if occurs_at(s, from, i) {
            assert(s.subrange(i, i + from.len())[0] == s[i]);
        }
    }
}

/// The first occurrence of a prefix is at zero.
proof fn lemma_find_prefix(s: Seq<char>, p: Seq<char>)
    requires
        occurs_at(s, p, 0),
    ensures
        find(s, p) == Some(0int),
{
    lemma_find_occurs(s, p);
}

/// How an embedded URL's scheme is written: `rtmp` or `rtmps` (`secure`),
/// then `://`, or `\://` as in a tee spec (`escaped`).
pub open spec fn scheme(secure: bool, escaped: bool) -> Seq<char> {
    if secure {
        if escaped {
            "rtmps\\://"@
        } else {
            "rtmps://"@
        }
    } else {
        if escaped {
            "rtmp\\://"@
        } else {
            "rtmp://"@
        }
    }
}

/// A token that the scan takes whole: no character in it ends a token, and
/// each backslash has a character after it.
pub open spec fn whole_token(u: Seq<char>) -> bool
    decreases u.len(),
{
    if u.len() == 0 {
        true
    } else if u[0] == '\\' {
        u.len() >= 2 && whole_token(u.subrange(2, u.len() as int))
    } else {
        !ends_token(u[0]) && whole_token(u.drop_first())
    }
}

proof fn lemma_whole_token_len(u: Seq<char>, q: Seq<char>)
    requires
        whole_token(u),
        q.len() == 0 || ends_token(q[0]),
    ensures
        token_len(u + q) == u.len(),
    decreases u.len(),
{
    if u.len() == 0 {
        assert(u + q =~= q);
    } else if u[0] == '\\' {
        let r = u.subrange(2, u.len() as int);
        assert((u + q).subrange(2, (u + q).len() as int) =~= r + q);
        lemma_whole_token_len(r, q);
    } else {
        assert((u + q).drop_first() =~= u.drop_first() + q);
        lemma_whole_token_len(u.drop_first(), q);
    }
}

proof fn lemma_whole_token_concat(a: Seq<char>, b: Seq<char>)
    requires
        whole_token(a),
        whole_token(b),
    ensures
        whole_token(a + b),
    decreases a.len(),
{
    if a.len() == 0 {
        assert(a + b =~= b);
    } else if a[0] == '\\' {
        let r = a.subrange(2, a.len() as int);
        assert((a + b).subrange(2, (a + b).len() as int) =~= r + b);
        lemma_whole_token_concat(r, b);
    } else {
        assert((a + b).drop_first() =~= a.drop_first() + b);
        lemma_whole_token_concat(a.drop_first(), b);
    }
}

proof fn lemma_plain_whole(u: Seq<char>)
    requires
        plain_url(u),
    ensures
        whole_token(u),
    decreases u.len(),
{
    if u.len() > 0 {
        assert(u[0] != '\\' && !ends_token(u[0]));
        assert(plain_url(u.drop_first())) by {
            assert forall|i: int| 0 <= i < u.drop_first().len() implies u.drop_first()[i] != '\\'
                && !ends_token(#[trigger] u.drop_first()[i]) by {
                assert(u.drop_first()[i] == u[i + 1]);
            }
        }
        lemma_plain_whole(u.drop_first());
    }
}

/// `replace` passes over a prefix that holds no first character of the pattern.
proof fn lemma_replace_skip(a: Seq<char>, b: Seq<char>, from: Seq<char>, to: Seq<char>)
    requires
        from.len() > 0,
        forall|i: int| 0 <= i < a.len() ==> a[i] != from[0],
    ensures
        replace(a + b, from, to) == a + replace(b, from, to),
    decreases a.len(),
{
    if a.len() == 0 {
        assert(a + b =~= b);
    } else {
        let s = a + b;
        assert(!occurs_at(s, from, 0)) by {
            if occurs_at(s, from, 0) {
                assert(s.subrange(0, from.len() as int)[0] == s[0]);
            }
        }
        assert(s.drop_first() =~= a.drop_first() + b);
        lemma_replace_skip(a.drop_first(), b, from, to);
        assert(seq![a[0]] + (a.drop_first() + replace(b, from, to)) =~= a + replace(b, from, to));
    }
}

/// `replace` rewrites a pattern at the very start, then goes on after it.
proof fn lemma_replace_head(b: Seq<char>, from: Seq<char>, to: Seq<char>)
    requires
        from.len() > 0,
    ensures
        replace(from + b, from, to) == to + replace(b, from, to),
{
    let s = from + b;
    assert(s.subrange(0, from.len() as int) =~= from);
    assert(s.subrange(from.len() as int, s.len() as int) =~= b);
}

/// No embedded URL starts inside `pre` when what follows it starts with `r`,
/// the one place an `r` stands in each form.
proof fn lemma_no_form_before(pre: Seq<char>, rest: Seq<char>, f: Seq<char>, j: int)
    requires
        0 <= j < pre.len(),
        !occurs_at(pre, f, j),
        rest.len() > 0,
        rest[0] == 'r',
        forall|k: int| 1 <= k < f.len() ==> f[k] != 'r',
    ensures
        !occurs_at(pre + rest, f, j),
{
    let s = pre + rest;
    if occurs_at(s, f, j) {
        if j + f.len() <= pre.len() {
            assert(s.subrange(j, j + f.len()) =~= pre.subrange(j, j + f.len()));
        } else {
            let k = pre.len() - j;
            assert(f[k] == s.subrange(j, j + f.len())[k]);
            assert(s[pre.len() as int] == rest[0]);
        }
    }
}

proof fn lemma_no_start_before(pre: Seq<char>, rest: Seq<char>)
    requires
        forall|i: int| !url_start_at(pre, i),
        rest.len() > 0,
        rest[0] == 'r',
    ensures
        forall|j: int| 0 <= j < pre.len() ==> !url_start_at(pre + rest, j),
{
    lemma_url_forms();
    assert forall|j: int| 0 <= j < pre.len() implies !url_start_at(pre + rest, j) by {
        assert(!url_start_at(pre, j));
        lemma_no_form_before(pre, rest, "rtmp://"@, j);
        lemma_no_form_before(pre, rest, "rtmp\\://"@, j);
        lemma_no_form_before(pre, rest, "rtmps://"@, j);
        lemma_no_form_before(pre, rest, "rtmps\\://"@, j);
    }
}

/// A plain-scheme URL is recognised as RTMP.
proof fn lemma_scheme_is_rtmp(secure: bool, rest: Seq<char>)
    ensures
        is_rtmp_like(scheme(secure, false) + rest),
{
    reveal_strlit("rtmp://");
    reveal_strlit("rtmps://");
    let sch = scheme(secure, false);
    let u = sch + rest;
    let low = ascii_lower_seq(u);
    assert forall|k: int| 0 <= k < sch.len() implies low[k] == sch[k] by {
        assert(u[k] == sch[k]);
    }
    assert(low.subrange(0, sch.len() as int) =~= sch);
}

/// The key of an RTMP URL with a plain scheme is masked.
proof fn lemma_plain_token_masked(secure: bool, path: Seq<char>, key: Seq<char>)
    requires
        plain_url(path),
        plain_url(key),
        key.len() > 0,
        forall|i: int| 0 <= i < key.len() ==> key[i] != '/',
    ensures
        masked_token(scheme(secure, false) + path + "/"@ + key) == scheme(secure, false) + path
            + "/"@ + masked_key(key),
{
    reveal_strlit("rtmp://");
    reveal_strlit("rtmps://");
    reveal_strlit("/");
    reveal_strlit("\\:");
    let sch = scheme(secure, false);
    let u = sch + path + "/"@ + key;
    assert forall|i: int| 0 <= i < u.len() implies u[i] != "\\:"@[0] by {
        if i >= sch.len() + path.len() + 1 {
            assert(u[i] == key[i - sch.len() - path.len() - 1]);
        } else if i >= sch.len() && i < sch.len() + path.len() {
            assert(u[i] == path[i - sch.len()]);
        }
    }
    lemma_replace_absent(u, "\\:"@, ":"@);
    lemma_scheme_is_rtmp(secure, path + "/"@ + key);
    assert(sch + (path + "/"@ + key) =~= u);
    lemma_url_key_is_masked(sch + path, key);
    assert(sch + path + "/"@ + key =~= u);
}

/// The masked key holds only `*` and characters of the key.
proof fn lemma_masked_key_chars(key: Seq<char>, c: char)
    requires
        forall|i: int| 0 <= i < key.len() ==> key[i] != c && !is_ws(key[i]),
        c != '*',
    ensures
        forall|i: int| 0 <= i < masked_key(key).len() ==> masked_key(key)[i] != c,
{
    if key.len() > 0 {
        lemma_trim_of_clean(key);
    } else {
        lemma_trim_of_clean(key);
    }
    let t = trim(key);
    assert(t == key);
    if t.len() > 4 {
        assert forall|i: int| 0 <= i < masked_key(key).len() implies masked_key(key)[i] != c by {
            if i >= 3 {
                assert(masked_key(key)[i] == key[key.len() - 4 + i - 3]);
            }
        }
    }
}

/// Undoing a tee spec's escape turns `rtmp\://…` into `rtmp://…`.
proof fn lemma_unescape_scheme(secure: bool, tail: Seq<char>)
    requires
        forall|i: int| 0 <= i < tail.len() ==> tail[i] != '\\',
    ensures
        replace(scheme(secure, true) + tail, "\\:"@, ":"@) == scheme(secure, false) + tail,
        contains(scheme(secure, true) + tail, "\\:"@),
{
    reveal_strlit("rtmp\\://");
    reveal_strlit("rtmps\\://");
    reveal_strlit("rtmp://");
    reveal_strlit("rtmps://");
    reveal_strlit("rtmp");
    reveal_strlit("rtmps");
    reveal_strlit("//");
    reveal_strlit("\\:");
    reveal_strlit(":");
    let name: Seq<char> = if secure {
        "rtmps"@
    } else {
        "rtmp"@
    };
    let y = "//"@ + tail;
    let u = scheme(secure, true) + tail;
    assert(u =~= name + ("\\:"@ + y));
    assert forall|i: int| 0 <= i < y.len() implies y[i] != "\\:"@[0] by {
        if i >= 2 {
            assert(y[i] == tail[i - 2]);
        }
    }
    lemma_replace_absent(y, "\\:"@, ":"@);
    lemma_replace_head(y, "\\:"@, ":"@);
    lemma_replace_skip(name, "\\:"@ + y, "\\:"@, ":"@);
    assert(name + (":"@ + y) =~= scheme(secure, false) + tail);
    assert(u.subrange(name.len() as int, name.len() + 2int) =~= "\\:"@);
    assert(occurs_at(u, "\\:"@, name.len() as int));
}

/// Putting a tee spec's escape back turns `rtmp://…` into `rtmp\://…` when no
/// other `:` follows.
proof fn lemma_escape_scheme(secure: bool, w: Seq<char>)
    requires
        forall|i: int| 0 <= i < w.len() ==> w[i] != ':',
    ensures
        replace(scheme(secure, false) + w, "://"@, "\\://"@) == scheme(secure, true) + w,
{
    reveal_strlit("rtmp\\://");
    reveal_strlit("rtmps\\://");
    reveal_strlit("rtmp://");
    reveal_strlit("rtmps://");
    reveal_strlit("rtmp");
    reveal_strlit("rtmps");
    reveal_strlit("://");
    reveal_strlit("\\://");
    let name: Seq<char> = if secure {
        "rtmps"@
    } else {
        "rtmp"@
    };
    assert forall|i: int| 0 <= i < w.len() implies w[i] != "://"@[0] by {}
    lemma_replace_absent(w, "://"@, "\\://"@);
    lemma_replace_head(w, "://"@, "\\://"@);
    lemma_replace_skip(name, "://"@ + w, "://"@, "\\://"@);
    assert(scheme(secure, false) + w =~= name + ("://"@ + w));
    assert(name + ("\\://"@ + w) =~= scheme(secure, true) + w);
}

/// Undoing the escape of a URL token whose path and key hold no backslash.
proof fn lemma_escaped_unescapes(secure: bool, path: Seq<char>, key: Seq<char>)
    requires
        plain_url(path),
        plain_url(key),
    ensures
        replace(scheme(secure, true) + path + "/"@ + key, "\\:"@, ":"@) == scheme(secure, false)
            + (path + "/"@ + key),
        contains(scheme(secure, true) + path + "/"@ + key, "\\:"@),
{
    reveal_strlit("/");
    let tail = path + "/"@ + key;
    assert(scheme(secure, true) + path + "/"@ + key =~= scheme(secure, true) + tail);
    assert forall|i: int| 0 <= i < tail.len() implies tail[i] != '\\' by {
        if i >= path.len() + 1 {
            assert(tail[i] == key[i - path.len() - 1]);
        } else if i < path.len() {
            assert(tail[i] == path[i]);
        }
    }
    lemma_unescape_scheme(secure, tail);
}

/// The plain form of the URL masks as the path up to the key, then the masked key.
proof fn lemma_unescaped_masked(secure: bool, path: Seq<char>, key: Seq<char>)
    requires
        key.len() > 0,
        forall|i: int| 0 <= i < key.len() ==> key[i] != '/',
    ensures
        masked_url(scheme(secure, false) + (path + "/"@ + key)) == scheme(secure, false) + (path
            + "/"@ + masked_key(key)),
{
    let tail = path + "/"@ + key;
    let a = scheme(secure, false) + path + "/"@ + key;
    let b = scheme(secure, false) + tail;
    let m = scheme(secure, false) + path + "/"@ + masked_key(key);
    assert(a == b) by {
        assert(a =~= b);
    }
    assert(masked_url(a) == m) by {
        lemma_scheme_is_rtmp(secure, tail);
        lemma_url_key_is_masked(scheme(secure, false) + path, key);
    }
    assert(m =~= scheme(secure, false) + (path + "/"@ + masked_key(key)));
}

/// Putting the escape back after masking.
proof fn lemma_masked_reescaped(secure: bool, path: Seq<char>, key: Seq<char>)
    requires
        forall|i: int| 0 <= i < path.len() ==> path[i] != ':',
        forall|i: int| 0 <= i < key.len() ==> key[i] != ':' && !is_ws(key[i]),
    ensures
        replace(scheme(secure, false) + (path + "/"@ + masked_key(key)), "://"@, "\\://"@)
            == scheme(secure, true) + path + "/"@ + masked_key(key),
{
    reveal_strlit("/");
    let w = path + "/"@ + masked_key(key);
    lemma_masked_key_chars(key, ':');
    assert forall|i: int| 0 <= i < w.len() implies w[i] != ':' by {
        if i >= path.len() + 1 {
            assert(w[i] == masked_key(key)[i - path.len() - 1]);
        } else if i < path.len() {
            assert(w[i] == path[i]);
        }
    }
    lemma_escape_scheme(secure, w);
    assert(scheme(secure, true) + w =~= scheme(secure, true) + path + "/"@ + masked_key(key));
}

/// The key of an RTMP URL written with a tee spec's `\://` is masked, and the
/// escape is kept.
proof fn lemma_escaped_token_masked(secure: bool, path: Seq<char>, key: Seq<char>)
    requires
        plain_url(path),
        plain_url(key),
        key.len() > 0,
        forall|i: int| 0 <= i < path.len() ==> path[i] != ':',
        forall|i: int| 0 <= i < key.len() ==> key[i] != '/' && key[i] != ':' && !is_ws(key[i]),
    ensures
        masked_token(scheme(secure, true) + path + "/"@ + key) == scheme(secure, true) + path
            + "/"@ + masked_key(key),
{
    let u = scheme(secure, true) + path + "/"@ + key;
    let url = scheme(secure, false) + (path + "/"@ + key);
    lemma_escaped_unescapes(secure, path, key);
    lemma_unescaped_masked(secure, path, key);
    lemma_masked_reescaped(secure, path, key);
    assert(masked_token(u) == replace(masked_url(url), "://"@, "\\://"@));
}

/// One step of `masked_embedded`: the text before the next URL, the URL
/// token masked, then the rest.
proof fn lemma_embedded_unfold(s: Seq<char>, rel: int, n: int)
    requires
        next_rtmp(s) == Some(rel),
        n == token_len(s.subrange(rel, s.len() as int)),
        0 <= rel,
        0 < n,
        rel + n <= s.len(),
    ensures
        masked_embedded(s) == s.subrange(0, rel) + masked_token(s.subrange(rel, rel + n))
            + masked_embedded(s.subrange(rel + n, s.len() as int)),
{
}

/// An argument holding a URL after its first `://` has a `/` there, so it is
/// a publish URL.
proof fn lemma_is_publish(s: Seq<char>, q0: int, sp: int)
    requires
        occurs_at(s, "://"@, q0),
        q0 + 3 <= sp < s.len(),
        s[sp] == '/',
    ensures
        is_publish_url(s),
{
    reveal_strlit("://");
    reveal_strlit("/");
    lemma_find_occurs(s, "://"@);
    let k = find(s, "://"@)->0;
    assert(k <= q0);
    let tail = s.subrange(k + 3, s.len() as int);
    assert(tail.subrange(sp - (k + 3), sp - (k + 3) + 1) =~= "/"@);
    assert(occurs_at(tail, "/"@, sp - (k + 3)));
}

/// The scheme is a token the scan takes whole.
proof fn lemma_scheme_whole(secure: bool, escaped: bool)
    ensures
        whole_token(scheme(secure, escaped)),
{
    reveal_strlit("rtmp\\://");
    reveal_strlit("rtmps\\://");
    reveal_strlit("rtmp://");
    reveal_strlit("rtmps://");
    reveal_strlit("rtmp");
    reveal_strlit("rtmps");
    reveal_strlit("//");
    reveal_strlit("\\:");
    let sch = scheme(secure, escaped);
    if escaped {
        let name: Seq<char> = if secure {
            "rtmps"@
        } else {
            "rtmp"@
        };
        assert(sch =~= name + ("\\:"@ + "//"@));
        lemma_plain_whole(name);
        lemma_plain_whole("//"@);
        assert(whole_token("\\:"@)) by {
            assert(whole_token(Seq::<char>::empty()));
            assert("\\:"@.subrange(2, 2) =~= Seq::<char>::empty());
        }
        lemma_whole_token_concat("\\:"@, "//"@);
        lemma_whole_token_concat(name, "\\:"@ + "//"@);
    } else {
        lemma_plain_whole(sch);
    }
}

/// A URL right after text where none starts is the first one the scan finds.
proof fn lemma_url_first(pre: Seq<char>, u: Seq<char>, post: Seq<char>, sch: Seq<char>)
    requires
        forall|i: int| !url_start_at(pre, i),
        sch == "rtmp://"@ || sch == "rtmp\\://"@ || sch == "rtmps://"@ || sch == "rtmps\\://"@,
        sch.len() <= u.len(),
        u.subrange(0, sch.len() as int) == sch,
    ensures
        next_rtmp(pre + u + post) == Some(pre.len() as int),
{
    lemma_url_forms();
    let s = pre + u + post;
    let p = pre.len() as int;
    assert(s =~= pre + (u + post));
    assert(u[0] == sch[0]);
    lemma_no_start_before(pre, u + post);
    assert(s.subrange(p, p + sch.len() as int) =~= u.subrange(0, sch.len() as int));
    assert(url_start_at(s, p));
    lemma_next_rtmp_is(s, p);
}

/// The conditions under which an embedded publish URL is masked.
pub open spec fn maskable(pre: Seq<char>, escaped: bool, path: Seq<char>, key: Seq<char>, post: Seq<char>) -> bool {
    &&& forall|i: int| !url_start_at(pre, i)
    &&& plain_url(path)
    &&& escaped ==> forall|i: int| 0 <= i < path.len() ==> path[i] != ':'
    &&& plain_url(key)
    &&& key.len() > 0
    &&& forall|i: int| 0 <= i < key.len() ==> key[i] != '/' && key[i] != ':' && !is_ws(key[i])
    &&& post.len() == 0 || ends_token(post[0])
}

proof fn lemma_embedded_first_url(
    pre: Seq<char>,
    secure: bool,
    escaped: bool,
    path: Seq<char>,
    key: Seq<char>,
    post: Seq<char>,
)
    requires
        maskable(pre, escaped, path, key, post),
    ensures
        masked_embedded(pre + (scheme(secure, escaped) + path + "/"@ + key) + post) == pre + (
        scheme(secure, escaped) + path + "/"@ + masked_key(key)) + masked_embedded(post),
{
    let sch = scheme(secure, escaped);
    let u = sch + path + "/"@ + key;
    let s = pre + u + post;
    let p = pre.len() as int;
    let n = u.len() as int;
    assert(n > 0 && u.subrange(0, sch.len() as int) == sch) by {
        reveal_strlit("rtmp\\://");
        reveal_strlit("rtmps\\://");
        reveal_strlit("rtmp://");
        reveal_strlit("rtmps://");
        assert(u.subrange(0, sch.len() as int) =~= sch);
    }
    lemma_url_first(pre, u, post, sch);
    assert(token_len(s.subrange(p, s.len() as int)) == n) by {
        lemma_scheme_whole(secure, escaped);
        lemma_plain_whole(path);
        reveal_strlit("/");
        lemma_plain_whole("/"@);
        lemma_plain_whole(key);
        lemma_whole_token_concat(sch, path);
        lemma_whole_token_concat(sch + path, "/"@);
        lemma_whole_token_concat(sch + path + "/"@, key);
        lemma_whole_token_len(u, post);
        assert(s.subrange(p, s.len() as int) =~= u + post);
    }
    lemma_embedded_unfold(s, p, n);
    assert(s.subrange(0, p) =~= pre);
    assert(s.subrange(p, p + n) =~= u);
    assert(s.subrange(p + n, s.len() as int) =~= post);
    if escaped {
        lemma_escaped_token_masked(secure, path, key);
    } else {
        lemma_plain_token_masked(secure, path, key);
    }
}

proof fn lemma_first_url_is_publish(
    pre: Seq<char>,
    secure: bool,
    escaped: bool,
    path: Seq<char>,
    key: Seq<char>,
    post: Seq<char>,
)
    ensures
        is_publish_url(pre + (scheme(secure, escaped) + path + "/"@ + key) + post),
{
    reveal_strlit("rtmp\\://");
    reveal_strlit("rtmps\\://");
    reveal_strlit("rtmp://");
    reveal_strlit("rtmps://");
    reveal_strlit("://");
    reveal_strlit("/");
    let sch = scheme(secure, escaped);
    let s = pre + (sch + path + "/"@ + key) + post;
    let p = pre.len() as int;
    let q0: int = p + sch.len() - 3;
    assert(s.subrange(q0, q0 + 3) =~= "://"@);
    let sp: int = p + sch.len() + path.len();
    assert(s[sp] == '/');
    lemma_is_publish(s, q0, sp);
}

/// In a shown argument, an embedded publish URL keeps its scheme and its path
/// up to the last `/`, and its key is shown only in masked form: the text
/// before the URL is kept, and the text after it is shown the same way in
/// turn. `secure` picks `rtmps`, `escaped` the tee spec's `\://`. What the
/// URL must be like is `maskable`: no URL starts before it, path and key hold
/// nothing that ends or escapes a tee token, the key holds no `/`, `:` or
/// white space, and the URL ends the argument or a token.
pub proof fn lemma_publish_key_masked(
    pre: Seq<char>,
    secure: bool,
    escaped: bool,
    path: Seq<char>,
    key: Seq<char>,
    post: Seq<char>,
)
    requires
        maskable(pre, escaped, path, key, post),
    ensures
        shown_arg(pre + (scheme(secure, escaped) + path + "/"@ + key) + post) == pre + (scheme(
            secure,
            escaped,
        ) + path + "/"@ + masked_key(key)) + masked_embedded(post),
{
    lemma_first_url_is_publish(pre, secure, escaped, path, key, post);
    lemma_embedded_first_url(pre, secure, escaped, path, key, post);
}

/// In a shown command line, an argument that holds a publish URL is shown
/// with that URL's key masked: the line is the binary and the shown
/// arguments joined by spaces, and the argument's word keeps the URL up to
/// its last `/` and shows the key only masked.
pub proof fn lemma_command_masks_publish_key(
    bin: Seq<char>,
    args: Seq<Seq<char>>,
    j: int,
    pre: Seq<char>,
    secure: bool,
    escaped: bool,
    path: Seq<char>,
    key: Seq<char>,
    post: Seq<char>,
)
    requires
        0 <= j < args.len(),
        args[j] == pre + (scheme(secure, escaped) + path + "/"@ + key) + post,
        maskable(pre, escaped, path, key, post),
    ensures
        shown_command(bin, args) == join_with(shown_words(bin, args), " "@),
        shown_words(bin, args).len() == args.len() + 1,
        shown_words(bin, args)[j + 1] == pre + (scheme(secure, escaped) + path + "/"@ + masked_key(
            key,
        )) + masked_embedded(post),
{
    lemma_publish_key_masked(pre, secure, escaped, path, key, post);
    assert(shown_words(bin, args)[j + 1] == shown_arg(args[j]));
}

proof fn lemma_last_index_of_is(s: Seq<char>, c: char, i: int)
    requires
        0 <= i < s.len(),
        s[i] == c,
        forall|j: int| i < j < s.len() ==> s[j] != c,
    ensures
        last_index_of(s, c) == Some(i),
{
    let k = choose|k: int| 0 <= k < s.len() && s[k] == c && forall|j: int| k < j < s.len() ==> s[j] != c;
    assert(0 <= k < s.len() && s[k] == c && forall|j: int| k < j < s.len() ==> s[j] != c);
    if k < i {
        assert(s[i] != c);
    } else if k > i {
        assert(s[k] != c);
    }
}

/// A key after the last `/` of an RTMP URL is shown only in its masked form.
pub proof fn lemma_url_key_is_masked(base: Seq<char>, key: Seq<char>)
    requires
        is_rtmp_like(base + "/"@ + key),
        key.len() > 0,
        forall|i: int| 0 <= i < key.len() ==> key[i] != '/',
    ensures
        masked_url(base + "/"@ + key) == base + "/"@ + masked_key(key),
{
    reveal(masked_url);
    reveal_strlit("/");
    let url = base + "/"@ + key;
    let idx = base.len() as int;
    assert(url[idx] == '/');
    assert forall|j: int| idx < j < url.len() implies url[j] != '/' by {
        assert(url[j] == key[j - idx - 1]);
    }
    lemma_last_index_of_is(url, '/', idx);
    assert(url.subrange(0, idx + 1) =~= base + "/"@);
    assert(url.subrange(idx + 1, url.len() as int) =~= key);
}

} // verus!
