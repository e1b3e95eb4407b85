//! Rolling-window estimate of transfer speed.
//!
//! The tracker keeps a chronological list of `(timestamp, cumulative bytes)`
//! samples, evicts samples older than a configured window, and reports a
//! bytes-per-second figure from the oldest and newest samples that remain.
//! Timestamps are plain milliseconds so that the arithmetic is verified;
//! only reading the clock is trusted.

use vstd::prelude::*;

verus! {

/// Milliseconds of history kept by default: five seconds.
pub const DEFAULT_WINDOW_MS: u64 = 5000;

/// Span between oldest and newest sample, in milliseconds, at or below
/// which no speed is reported (too little data for a stable estimate).
pub const MIN_SPAN_MS: u64 = 100;

/// A sample `(t, b)` is stale at time `now` when its age exceeds `window_ms`.
/// Ages are saturating: a sample stamped later than `now` has age zero.
pub open spec fn is_stale(sample: (u64, u64), now: u64, window_ms: u64) -> bool {
    sample.0 < now && now - sample.0 > window_ms
}

/// Samples left after evicting the stale prefix at time `now`.
pub open spec fn drop_stale(s: Seq<(u64, u64)>, now: u64, window_ms: u64) -> Seq<(u64, u64)>
    decreases s.len(),
{
    if s.len() == 0 {
        s
    } else if is_stale(s[0], now, window_ms) {
        drop_stale(s.drop_first(), now, window_ms)
    } else {
        s
    }
}

/// The speed, in bytes per second, read from a sample sequence: the byte
/// difference between newest and oldest over their span, floored, and
/// saturated at `u64::MAX`; zero when fewer than two samples remain or the
/// span is at most `MIN_SPAN_MS`.
pub open spec fn speed_of(s: Seq<(u64, u64)>) -> int {
    if s.len() < 2 {
        0
    } else {
        let t1 = s[0].0;
        let b1 = s[0].1;
        let t2 = s[s.len() - 1].0;
        let b2 = s[s.len() - 1].1;
        let span = if t1 <= t2 { t2 - t1 } else { 0 };
        if span > MIN_SPAN_MS {
            let diff = if b1 <= b2 { b2 - b1 } else { 0 };
            let q = diff * 1000 / span;
            if q > u64::MAX {
                u64::MAX as int
            } else {
                q
            }
        } else {
            0
        }
    }
}

/// Rolling-window speed tracker.
#[derive(Debug)]
pub struct SpeedTracker {
    /// Chronological `(timestamp in ms, cumulative bytes)` samples.
    pub samples: Vec<(u64, u64)>,
    /// Width of the rolling window, in milliseconds.
    pub window_ms: u64,
}

/// Relies on std::time::SystemTime: milliseconds elapsed since the Unix
/// epoch, used only to timestamp speed samples. Nothing is assumed of the
/// value returned.
#[verifier::external_body]
fn now_millis() -> u64 {
    match std::time::SystemTime::now().duration_since(std::time::UNIX_EPOCH) {
        Ok(d) => d.as_millis() as u64,
        Err(_) => 0,
    }
}

impl SpeedTracker {
    /// A tracker with the given window and no samples yet.
    pub fn new(window_ms: u64) -> (r: Self)
        ensures
            r.samples@ == Seq::<(u64, u64)>::empty(),
            r.window_ms == window_ms,
    {
        SpeedTracker { samples: Vec::new(), window_ms }
    }

    /// A tracker with the default five-second window.
    pub fn default_window() -> (r: Self)
        ensures
            r.samples@ == Seq::<(u64, u64)>::empty(),
            r.window_ms == DEFAULT_WINDOW_MS,
    {
        Self::new(DEFAULT_WINDOW_MS)
    }

    /// Record that `bytes` cumulative bytes had been moved at time `now_ms`,
    /// evicting samples that fall out of the window.
    pub fn add_sample_at(&mut self, now_ms: u64, bytes: u64)
        ensures
            final(self).window_ms == old(self).window_ms,
            final(self).samples@ == drop_stale(
                old(self).samples@.push((now_ms, bytes)),
                now_ms,
                old(self).window_ms,
            ),
            chronological(old(self).samples@) && (old(self).samples@.len() == 0 || now_ms >= old(
                self,
            ).samples@.last().0) ==> chronological(final(self).samples@) && (forall|i: int|
                0 <= i < final(self).samples@.len() ==> !is_stale(
                    #[trigger] final(self).samples@[i],
                    now_ms,
                    old(self).window_ms,
                )),
    {
        proof {
            let pushed = self.samples@.push((now_ms, bytes));
            if chronological(self.samples@) && (self.samples@.len() == 0 || now_ms
                >= self.samples@.last().0) {
                assert forall|i: int, j: int| 0 <= i <= j < pushed.len() implies (
                #[trigger] pushed[i]).0 <= (#[trigger] pushed[j]).0 by {
                    if j == pushed.len() - 1 && i < j {
                        assert(pushed[i] == self.samples@[i]);
                        assert(self.samples@[i].0 <= self.samples@.last().0);
                    }
                }
                lemma_drop_stale_chronological(pushed, now_ms, self.window_ms);
            }
        }
        self.samples.push((now_ms, bytes));
        let ghost target = drop_stale(self.samples@, now_ms, self.window_ms);
        let ghost win = self.window_ms;
        loop
            invariant
                self.window_ms == win,
                drop_stale(self.samples@, now_ms, win) == target,
            ensures
                self.samples@ == target,
                self.window_ms == win,
            decreases self.samples@.len(),
        {
            if self.samples.len() == 0 {
                assert(drop_stale(self.samples@, now_ms, win) == self.samples@);
                break;
            }
            let (t, _b) = self.samples[0];
            if t < now_ms && now_ms - t > self.window_ms {
                let ghost pre = self.samples@;
                self.samples.remove(0);
                proof {
                    assert(is_stale(pre[0], now_ms, win));
                    assert(self.samples@ =~= pre.drop_first());
                    assert(drop_stale(pre, now_ms, win) == drop_stale(
                        pre.drop_first(),
                        now_ms,
                        win,
                    ));
                }
            } else {
                assert(!is_stale(self.samples@[0], now_ms, win));
                assert(drop_stale(self.samples@, now_ms, win) == self.samples@);
                break;
            }
        }
    }

    /// Record a sample stamped with the current clock.
    pub fn add_sample(&mut self, bytes: u64)
        ensures
            final(self).window_ms == old(self).window_ms,
            exists|now_ms: u64|
                final(self).samples@ == #[trigger] drop_stale(
                    old(self).samples@.push((now_ms, bytes)),
                    now_ms,
                    old(self).window_ms,
                ),
    {
        let now = now_millis();
        self.add_sample_at(now, bytes);
    }

    /// The current speed estimate in bytes per second.
    pub fn speed_bps(&self) -> (r: u64)
        ensures
            r == speed_of(self.samples@),
    {
        if self.samples.len() < 2 {
            return 0;
        }
        let (t1, b1) = self.samples[0];
        let (t2, b2) = self.samples[self.samples.len() - 1];
        let span: u64 = if t1 <= t2 { t2 - t1 } else { 0 };
        if span > MIN_SPAN_MS {
            let diff: u64 = if b1 <= b2 { b2 - b1 } else { 0 };
            let q: u128 = (diff as u128) * 1000 / (span as u128);
            if q > u64::MAX as u128 {
                u64::MAX
            } else {
                q as u64
            }
        } else {
            0
        }
    }
}

/// Timestamps nondecreasing along the sequence.
pub open spec fn chronological(s: Seq<(u64, u64)>) -> bool {
    forall|i: int, j: int| 0 <= i <= j < s.len() ==> (#[trigger] s[i]).0 <= (#[trigger] s[j]).0
}

/// Evicting the stale prefix of a chronological sequence leaves a
/// chronological suffix, none of whose samples is older than the window.
pub proof fn lemma_drop_stale_chronological(s: Seq<(u64, u64)>, now: u64, window_ms: u64)
    requires
        chronological(s),
    ensures
        chronological(drop_stale(s, now, window_ms)),
        forall|i: int|
            0 <= i < drop_stale(s, now, window_ms).len() ==> !is_stale(
                #[trigger] drop_stale(s, now, window_ms)[i],
                now,
                window_ms,
            ),
    decreases s.len(),
{
    if s.len() > 0 {
        if is_stale(s[0], now, window_ms) {
            assert(forall|k: int|
                0 <= k < s.drop_first().len() ==> s.drop_first()[k] == s[k + 1]);
            lemma_drop_stale_chronological(s.drop_first(), now, window_ms);
        } else {
            assert(drop_stale(s, now, window_ms) == s);
            assert forall|i: int| 0 <= i < s.len() implies !is_stale(
                #[trigger] s[i],
                now,
                window_ms,
            ) by {
                assert(s[0].0 <= s[i].0);
            }
        }
    }
}

/// Byte counts and timestamps both nondecreasing along the sequence.
pub open spec fn monotone_samples(s: Seq<(u64, u64)>) -> bool {
    forall|i: int, j: int|
        0 <= i <= j < s.len() ==> (#[trigger] s[i]).0 <= (#[trigger] s[j]).0 && s[i].1 <= s[j].1
}

/// The reported speed is never negative, and for a monotone-nondecreasing
/// sample sequence it is exactly the byte difference over the span (capped
/// at `u64::MAX`) whenever the span is wide enough.
pub proof fn lemma_speed_nonneg(s: Seq<(u64, u64)>)
    ensures
        speed_of(s) >= 0,
        monotone_samples(s) && s.len() >= 2 && s[s.len() - 1].0 - s[0].0 > MIN_SPAN_MS
            ==> speed_of(s) == ({
            let diff = s[s.len() - 1].1 - s[0].1;
            let span = s[s.len() - 1].0 - s[0].0;
            if diff * 1000 / span > u64::MAX {
                u64::MAX as int
            } else {
                diff * 1000 / span
            }
        }),
{
    if s.len() >= 2 {
        let t1 = s[0].0;
        let b1 = s[0].1;
        let t2 = s[s.len() - 1].0;
        let b2 = s[s.len() - 1].1;
        let span: int = if t1 <= t2 {
            t2 - t1
        } else {
            0
        };
        if span > MIN_SPAN_MS {
            let diff: int = if b1 <= b2 {
                b2 - b1
            } else {
                0
            };
            vstd::arithmetic::div_mod::lemma_div_pos_is_pos(diff * 1000, span);
            assert(diff * 1000 >= 0) by (nonlinear_arith)
                requires
                    diff >= 0,
            ;
        }
    }
}

} // verus!
