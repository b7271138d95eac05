//! A cumulative byte counter with a short history of samples, from which a
//! recent rate can be worked out. Times are milliseconds on a monotonic clock
//! that the caller reads.
use std::collections::VecDeque;

use vstd::prelude::*;
use vstd::arithmetic::div_mod::{lemma_div_denominator, lemma_fundamental_div_mod};

use crate::text::{decimal, decimal_padded, decimal_string, pad_left};

verus! {

/// How long a sample is kept once newer ones exist.
pub const KEEP_MS: u64 = 2500;

/// How far back the recent rate looks.
pub const WINDOW_MS: u64 = 1000;

/// `a - b`, or zero when `b` is later than `a`.
pub open spec fn since(a: u64, b: u64) -> u64 {
    if a >= b {
        (a - b) as u64
    } else {
        0
    }
}

/// Cumulative byte counter with the samples that `tick` records.
#[derive(Debug)]
pub struct ByteCounter {
    total: u64,
    started: Option<u64>,
    samples: VecDeque<(u64, u64)>,
}

/// What a snapshot reads at one instant: the total, the bytes counted since
/// the baseline sample, how long ago that sample was taken, and how long ago
/// the first byte was counted.
#[derive(Debug, Clone, Copy, PartialEq, Eq, Structural)]
pub struct Window {
    pub bytes: u64,
    pub delta_bytes: u64,
    pub window_ms: u64,
    pub active_ms: Option<u64>,
}

/// Drop leading samples older than `KEEP_MS` before `now`, always keeping
/// the newest one.
pub open spec fn pruned(s: Seq<(u64, u64)>, now: u64) -> Seq<(u64, u64)>
    decreases s.len(),
{
    if s.len() > 1 && since(now, s[0].0) > KEEP_MS {
        pruned(s.drop_first(), now)
    } else {
        s
    }
}

/// Index of the first sample taken at or after `target`, if any.
pub open spec fn first_at_or_after(s: Seq<(u64, u64)>, target: u64) -> Option<int>
    decreases s.len(),
{
    if s.len() == 0 {
        None
    } else if s[0].0 >= target {
        Some(0)
    } else {
        match first_at_or_after(s.drop_first(), target) {
            Some(i) => Some(i + 1),
            None => None,
        }
    }
}

/// The sample a snapshot at `now` measures from: the first one no older than
/// `WINDOW_MS`, else the oldest. `None` when there are no samples.
pub open spec fn baseline(s: Seq<(u64, u64)>, now: u64) -> Option<(u64, u64)> {
    if s.len() == 0 {
        None
    } else {
        let target = since(now, WINDOW_MS);
        match first_at_or_after(s, target) {
            Some(i) => Some(s[i]),
            None => Some(s[0]),
        }
    }
}

/// The snapshot of a counter whose state is `(total, started, samples)`.
pub open spec fn window_of(total: u64, started: Option<u64>, s: Seq<(u64, u64)>, now: u64) -> Window {
    let (b0, window_ms) = match baseline(s, now) {
        Some((t0, b0)) => (b0, since(now, t0)),
        None => (total, 0u64),
    };
    Window {
        bytes: total,
        delta_bytes: since(total, b0),
        window_ms,
        active_ms: match started {
            Some(t) => Some(since(now, t)),
            None => None,
        },
    }
}

proof fn lemma_first_at_or_after_bounds(s: Seq<(u64, u64)>, target: u64)
    ensures
        match first_at_or_after(s, target) {
            Some(i) => 0 <= i < s.len() && s[i].0 >= target && forall|j: int|
                0 <= j < i ==> #[trigger] s[j].0 < target,
            None => forall|j: int| 0 <= j < s.len() ==> #[trigger] s[j].0 < target,
        },
    decreases s.len(),
{
    if s.len() > 0 && s[0].0 < target {
        lemma_first_at_or_after_bounds(s.drop_first(), target);
        match first_at_or_after(s.drop_first(), target) {
            Some(i) => {
                assert forall|j: int| 0 <= j < i + 1 implies #[trigger] s[j].0 < target by {
                    if j > 0 {
                        assert(s[j] == s.drop_first()[j - 1]);
                    }
                }
            },
            None => {
                assert forall|j: int| 0 <= j < s.len() implies #[trigger] s[j].0 < target by {
                    if j > 0 {
                        assert(s[j] == s.drop_first()[j - 1]);
                    }
                }
            },
        }
    }
}

impl ByteCounter {
    /// The bytes counted so far.
    pub closed spec fn total_spec(&self) -> u64 {
        self.total
    }

    /// When the first byte was counted, if one was.
    pub closed spec fn started_spec(&self) -> Option<u64> {
        self.started
    }

    /// The recorded `(time, total)` samples, oldest first.
    pub closed spec fn samples_spec(&self) -> Seq<(u64, u64)> {
        self.samples@
    }

    pub fn new() -> (c: Self)
        ensures
            c.total_spec() == 0,
            c.started_spec() is None,
            c.samples_spec() == Seq::<(u64, u64)>::empty(),
    {
        ByteCounter { total: 0, started: None, samples: VecDeque::new() }
    }

    /// Back to a fresh counter.
    pub fn reset(&mut self)
        ensures
            final(self).total_spec() == 0,
            final(self).started_spec() is None,
            final(self).samples_spec() == Seq::<(u64, u64)>::empty(),
    {
        self.total = 0;
        self.started = None;
        self.samples = VecDeque::new();
    }

    fn touch_start(&mut self, now_ms: u64)
        ensures
            final(self).started_spec() == (match old(self).started_spec() {
                Some(t) => Some(t),
                None => Some(now_ms),
            }),
            final(self).total_spec() == old(self).total_spec(),
            final(self).samples_spec() == old(self).samples_spec(),
    {
        if self.started.is_none() {
            self.started = Some(now_ms);
        }
    }

    /// Count `n` more bytes at `now_ms`; the total wraps as an atomic add does.
    /// Adding nothing changes nothing.
    pub fn add(&mut self, n: u64, now_ms: u64)
        ensures
            n == 0 ==> final(self).total_spec() == old(self).total_spec()
                && final(self).started_spec() == old(self).started_spec(),
            n > 0 ==> final(self).total_spec() == (old(self).total_spec() + n) % 0x1_0000_0000_0000_0000
                && final(self).started_spec() == (match old(self).started_spec() {
                Some(t) => Some(t),
                None => Some(now_ms),
            }),
            final(self).samples_spec() == old(self).samples_spec(),
    {
        if n == 0 {
            return;
        }
        self.touch_start(now_ms);
        self.total = self.total.wrapping_add(n);
    }

    /// Set the absolute total (as ffmpeg's `total_size=` reports it).
    pub fn set(&mut self, n: u64, now_ms: u64)
        ensures
            final(self).total_spec() == n,
            final(self).started_spec() == (match old(self).started_spec() {
                Some(t) => Some(t),
                None => Some(now_ms),
            }),
            final(self).samples_spec() == old(self).samples_spec(),
    {
        self.touch_start(now_ms);
        self.total = n;
    }

    pub fn total(&self) -> (t: u64)
        ensures
            t == self.total_spec(),
    {
        self.total
    }

    /// Record a sample of the total at `now_ms` and forget the samples older
    /// than `KEEP_MS`, keeping at least the new one.
    pub fn tick(&mut self, now_ms: u64)
        ensures
            final(self).samples_spec() == pruned(old(self).samples_spec().push((now_ms, old(self).total_spec())), now_ms),
            final(self).total_spec() == old(self).total_spec(),
            final(self).started_spec() == old(self).started_spec(),
    {
        let t = self.total;
        self.samples.push_back((now_ms, t));
        let ghost full = self.samples@;
        while self.samples.len() > 1
            invariant
                pruned(full, now_ms) == pruned(self.samples@, now_ms),
                self.total == t,
                self.started == old(self).started,
                full == old(self).samples@.push((now_ms, t)),
            ensures
                pruned(full, now_ms) == self.samples@,
            decreases self.samples@.len(),
        {
            let front = self.samples[0].0;
            let age = if now_ms >= front {
                now_ms - front
            } else {
                0
            };
            if age > KEEP_MS {
                let ghost before = self.samples@;
                let _ = self.samples.pop_front();
                assert(self.samples@ =~= before.drop_first());
            } else {
                break;
            }
        }
    }

    /// The integer readings of a snapshot at `now_ms`. The counter is not
    /// changed, so reading it never skews the rate.
    pub fn snapshot(&self, now_ms: u64) -> (w: Window)
        ensures
            w == window_of(self.total_spec(), self.started_spec(), self.samples_spec(), now_ms),
    {
        let total = self.total;
        let ghost s = self.samples@;
        let (b0, window_ms): (u64, u64) = if self.samples.len() == 0 {
            (total, 0)
        } else {
            let target: u64 = if now_ms >= WINDOW_MS {
                now_ms - WINDOW_MS
            } else {
                0
            };
            let mut i: usize = 0;
            proof {
                lemma_first_at_or_after_bounds(s, target);
            }
            while i < self.samples.len() && self.samples[i].0 < target
                invariant
                    0 <= i <= s.len(),
                    s == self.samples@,
                    forall|j: int| 0 <= j < i ==> #[trigger] s[j].0 < target,
                    match first_at_or_after(s, target) {
                        Some(k) => 0 <= k < s.len() && s[k].0 >= target && forall|j: int|
                            0 <= j < k ==> #[trigger] s[j].0 < target,
                        None => forall|j: int| 0 <= j < s.len() ==> #[trigger] s[j].0 < target,
                    },
                decreases s.len() - i,
            {
                i = i + 1;
            }
            let (t0, b0) = if i < self.samples.len() {
                proof {
                    match first_at_or_after(s, target) {
                        Some(k) => {
                            if k < i {
                                assert(s[k].0 < target);
                            } else if k > i {
                                assert(s[i as int].0 < target);
                            }
                        },
                        None => {
                            assert(s[i as int].0 < target);
                        },
                    }
                }
                self.samples[i]
            } else {
                proof {
                    match first_at_or_after(s, target) {
                        Some(k) => {
                            assert(s[k].0 < target);
                        },
                        None => {},
                    }
                }
                self.samples[0]
            };
            let w = if now_ms >= t0 {
                now_ms - t0
            } else {
                0
            };
            (b0, w)
        };
        let delta = if total >= b0 {
            total - b0
        } else {
            0
        };
        let active = match self.started {
            Some(t) => Some(
                if now_ms >= t {
                    now_ms - t
                } else {
                    0
                },
            ),
            None => None,
        };
        Window { bytes: total, delta_bytes: delta, window_ms, active_ms: active }
    }
}

/// Pruning at `now` keeps a nonempty suffix of the samples, so the newest
/// sample (after a tick, the one just taken) stays, and the oldest one left
/// is at most `KEEP_MS` old unless it is the only one.
pub proof fn lemma_tick_keeps_recent(s: Seq<(u64, u64)>, now: u64)
    requires
        s.len() > 0,
    ensures
        pruned(s, now).len() > 0,
        pruned(s, now).last() == s.last(),
        pruned(s, now).len() == 1 || since(now, pruned(s, now)[0].0) <= KEEP_MS,
        pruned(s, now).len() <= s.len(),
        s.subrange(s.len() - pruned(s, now).len(), s.len() as int) == pruned(s, now),
    decreases s.len(),
{
    if s.len() > 1 && since(now, s[0].0) > KEEP_MS {
        lemma_tick_keeps_recent(s.drop_first(), now);
        assert(s.drop_first().last() == s.last());
        let p = pruned(s, now);
        assert(s.drop_first().subrange(s.drop_first().len() - p.len(), s.drop_first().len() as int)
            =~= s.subrange(s.len() - p.len(), s.len() as int));
    } else {
        assert(s.subrange(0, s.len() as int) =~= s);
    }
}

/// The largest count a double holds exactly at unit spacing: 2^53.
pub const EXACT_LIMIT: u64 = 0x20_0000_0000_0000;

/// The spacing of doubles around `n`: 1 below `EXACT_LIMIT`, doubling with
/// each further bit.
pub open spec fn double_spacing(n: nat) -> nat
    decreases n,
{
    if n < EXACT_LIMIT {
        1
    } else {
        2 * double_spacing(n / 2)
    }
}

/// `num / den` rounded to the nearest integer, ties to the even one.
pub open spec fn round_half_even(num: nat, den: nat) -> nat {
    let q = num / den;
    let r = num % den;
    if 2 * r > den || (2 * r == den && q % 2 == 1) {
        q + 1
    } else {
        q
    }
}

/// The value of `n as f64`: `n` rounded to the nearest multiple of its
/// spacing, ties to the even multiple.
pub open spec fn as_double(n: nat) -> nat {
    let unit = double_spacing(n);
    round_half_even(n, unit) * unit
}

/// `num / den` written with `places` decimals (`scale` is ten to that
/// power), rounded half to even as `{:.N}` does.
pub open spec fn fixed_point(num: nat, den: nat, scale: nat, places: nat) -> Seq<char> {
    let q = round_half_even(num * scale, den);
    decimal(q / scale) + "."@ + pad_left(decimal(q % scale), places, '0')
}

/// A byte count for people: MiB with two decimals, KiB with one, else bytes.
pub open spec fn byte_size_text(n: u64) -> Seq<char> {
    let x = as_double(n as nat);
    if x >= 1048576 {
        fixed_point(x, 1048576, 100, 2) + " MiB"@
    } else if x >= 1024 {
        fixed_point(x, 1024, 10, 1) + " KiB"@
    } else {
        decimal(n as nat) + " B"@
    }
}

fn round_half_even_exec(num: u128, den: u128) -> (q: u128)
    requires
        0 < den <= 0x1_0000_0000,
        num < 0x1_0000_0000_0000_0000_0000,
    ensures
        q == round_half_even(num as nat, den as nat),
        q <= num / den + 1,
{
    let q = num / den;
    let r = num % den;
    proof {
        assert(q <= num) by (nonlinear_arith)
            requires
                q == num / den,
                den > 0,
        ;
    }
    if 2 * r > den || (2 * r == den && q % 2 == 1) {
        q + 1
    } else {
        q
    }
}

/// The largest value `as_double_exec` returns: 2^64 plus the widest spacing.
pub const DOUBLE_BOUND: u128 = 0x1_0000_0000_0000_1000;

/// `n as f64`, kept as an exact integer.
fn as_double_exec(n: u64) -> (x: u128)
    ensures
        x == as_double(n as nat),
        x <= DOUBLE_BOUND,
{
    let mut m: u64 = n;
    let mut unit: u64 = 1;
    while m >= EXACT_LIMIT
        invariant
            0 < unit <= 4096,
            m == (n as nat) / (unit as nat),
            double_spacing(n as nat) == unit * double_spacing(m as nat),
        decreases m,
    {
        proof {
            lemma_fundamental_div_mod(n as int, unit as int);
            assert(unit * m <= n);
            assert(unit < 2048) by (nonlinear_arith)
                requires
                    unit * m <= n,
                    m >= EXACT_LIMIT,
                    n < 0x1_0000_0000_0000_0000,
                    unit > 0,
            ;
            lemma_div_denominator(n as int, unit as int, 2);
            assert(double_spacing(m as nat) == 2 * double_spacing((m / 2) as nat));
            assert(unit * (2 * double_spacing((m / 2) as nat)) == (2 * unit) * double_spacing(
                (m / 2) as nat,
            )) by (nonlinear_arith);
        }
        m = m / 2;
        unit = unit * 2;
    }
    proof {
        lemma_fundamental_div_mod(n as int, unit as int);
        assert(unit * m <= n);
        assert(double_spacing(m as nat) == 1);
        assert(unit * double_spacing(m as nat) == unit) by (nonlinear_arith)
            requires
                double_spacing(m as nat) == 1,
        ;
        assert(unit == double_spacing(n as nat));
    }
    let r: u64 = n % unit;
    let q: u64 = if 2 * r > unit || (2 * r == unit && m % 2 == 1) {
        m + 1
    } else {
        m
    };
    proof {
        assert(q == round_half_even(n as nat, unit as nat));
        assert(q * unit <= DOUBLE_BOUND) by (nonlinear_arith)
            requires
                q <= m + 1,
                unit * m <= n,
                unit <= 4096,
                n < 0x1_0000_0000_0000_0000,
        ;
    }
    (q as u128) * (unit as u128)
}

fn fixed_point_exec(num: u128, den: u128, scale: u128, places: usize) -> (r: String)
    requires
        num <= DOUBLE_BOUND,
        1024 <= den <= 0x1_0000_0000,
        1 <= scale <= 100,
    ensures
        r@ == fixed_point(num as nat, den as nat, scale as nat, places as nat),
{
    proof {
        assert(num * scale <= 100 * DOUBLE_BOUND) by (nonlinear_arith)
            requires
                num <= DOUBLE_BOUND,
                scale <= 100,
        ;
    }
    let t = num * scale;
    let q = round_half_even_exec(t, den);
    proof {
        assert(t / den <= t / 1024) by (nonlinear_arith)
            requires
                den >= 1024,
                t >= 0,
        ;
        assert(q / scale <= q) by (nonlinear_arith)
            requires
                scale >= 1,
        ;
        assert(q % scale < scale);
    }
    let whole = q / scale;
    let frac = q % scale;
    let mut s = decimal_string(whole as u64);
    s.append(".");
    s.append(decimal_padded(frac as u64, places).as_str());
    s
}

/// A byte count as `1.50 MiB`, `2.0 KiB` or `17 B`, as the float formatting
/// of `n as f64` divided by a power of two gives it.
pub fn format_bytes(n: u64) -> (r: String)
    ensures
        r@ == byte_size_text(n),
{
    let x = as_double_exec(n);
    if x >= 1048576 {
        let mut s = fixed_point_exec(x, 1048576, 100, 2);
        s.append(" MiB");
        s
    } else if x >= 1024 {
        let mut s = fixed_point_exec(x, 1024, 10, 1);
        s.append(" KiB");
        s
    } else {
        let mut s = decimal_string(n);
        s.append(" B");
        s
    }
}

} // verus!
