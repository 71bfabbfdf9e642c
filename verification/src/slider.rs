//! Parsing of serial slider frames and smoothing of noisy slider readings.
use vstd::prelude::*;

use std::collections::VecDeque;

use crate::audio::{NormalizedVolume, SCALE};
use crate::config::NoiseReduction;
use crate::text::{chars_of, parse_u16, parse_u16_trimmed, trim, trim_bounds};

verus! {

/// One line's worth of normalized slider readings, in serial order.
pub type SliderFrame = Vec<NormalizedVolume>;

/// The maximum raw reading of the firmware's 10-bit analog-to-digital converter.
pub const MAX_ADC_VALUE: u16 = 1023;

/// The pieces of `s` between `|` separators, empty pieces included.
pub open spec fn split_bar(s: Seq<char>) -> Seq<Seq<char>>
    decreases s.len(),
{
    if s.len() == 0 {
        seq![Seq::<char>::empty()]
    } else {
        let prev = split_bar(s.drop_last());
        if s.last() == '|' {
            prev.push(Seq::<char>::empty())
        } else {
            prev.update(prev.len() - 1, prev.last().push(s.last()))
        }
    }
}

/// The normalized value (in units of `1 / SCALE`) of a raw reading `raw`, given the
/// firmware's maximum reading `max_value`. Readings above the maximum count as the maximum;
/// a maximum of zero yields the minimum.
pub open spec fn slider_value(raw: nat, max_value: nat, invert: bool) -> nat {
    let n: nat = if max_value == 0 {
        0
    } else {
        (if raw < max_value {
            raw
        } else {
            max_value
        }) * (SCALE as nat) / max_value
    };
    if invert {
        (SCALE - n) as nat
    } else {
        n
    }
}

/// What a serial line decodes to: `None` unless the trimmed line is non-empty and every
/// `|`-separated piece (trimmed) is a `u16`; otherwise the normalized value of every piece.
pub open spec fn parse_frame(line: Seq<char>, max_value: u16, invert: bool) -> Option<Seq<nat>> {
    let t = trim(line);
    let parts = split_bar(t);
    if t.len() == 0 || exists|i: int| 0 <= i < parts.len() && parse_u16(trim(#[trigger] parts[i])) is None {
        None
    } else {
        Some(
            Seq::new(
                parts.len(),
                |i: int| slider_value(parse_u16(trim(parts[i]))->0 as nat, max_value as nat, invert),
            ),
        )
    }
}

proof fn lemma_split_bar_nonempty(s: Seq<char>)
    ensures
        split_bar(s).len() >= 1,
    decreases s.len(),
{
    if s.len() > 0 {
        lemma_split_bar_nonempty(s.drop_last());
    }
}

/// Extending the input only appends pieces or grows the last one: every completed piece of a
/// prefix is a piece of the whole.
proof fn lemma_split_bar_prefix(t: Seq<char>, k1: int, k2: int)
    requires
        0 <= k1 <= k2 <= t.len(),
    ensures
        split_bar(t.take(k1)).len() <= split_bar(t.take(k2)).len(),
        forall|j: int|
            0 <= j < split_bar(t.take(k1)).len() - 1 ==> #[trigger] split_bar(t.take(k2))[j]
                == split_bar(t.take(k1))[j],
    decreases k2 - k1,
{
    if k2 > k1 {
        lemma_split_bar_prefix(t, k1, k2 - 1);
        let s = t.take(k2);
        assert(s.drop_last() == t.take(k2 - 1));
        lemma_split_bar_nonempty(t.take(k2 - 1));
    }
}

/// The normalized value of one raw reading.
fn normalize(raw: u16, max_value: u16, invert: bool) -> (r: NormalizedVolume)
    ensures
        r@ == slider_value(raw as nat, max_value as nat, invert),
{
    let n: u64 = if max_value == 0 {
        0
    } else {
        let m: u64 = if raw < max_value {
            raw as u64
        } else {
            max_value as u64
        };
        let mx: u64 = max_value as u64;
        assert((m * 1_000_000) as int / (mx as int) <= 1_000_000) by (nonlinear_arith)
            requires
                m <= mx,
                mx > 0,
        ;
        assert(m * 1_000_000 <= 1_000_000 * 65535) by (nonlinear_arith)
            requires
                m <= 65535,
        ;
        m * 1_000_000 / mx
    };
    let v: u64 = if invert {
        1_000_000 - n
    } else {
        n
    };
    NormalizedVolume::from_units(v as u32)
}

/// Parses a raw serial line like `401|410|517|561|612` into normalized slider values.
///
/// `max_value` is the firmware's maximum raw reading ([`MAX_ADC_VALUE`] for a 10-bit ADC).
/// Returns `None` for lines that don't look like a slider frame (power-up noise, stray
/// firmware output, etc.) rather than erroring.
pub fn parse_line(line: &str, max_value: u16, invert: bool) -> (r: Option<SliderFrame>)
    ensures
        r is Some <==> parse_frame(line@, max_value, invert) is Some,
        r matches Some(frame) ==> {
            &&& frame@.len() == parse_frame(line@, max_value, invert)->0.len()
            &&& forall|i: int|
                0 <= i < frame@.len() ==> #[trigger] frame@[i]@ == parse_frame(
                    line@,
                    max_value,
                    invert,
                )->0[i]
        },
{
    let chars = chars_of(line);
    let (lo, hi) = trim_bounds(&chars, 0, chars.len());
    assert(chars@.subrange(0, chars@.len() as int) == line@);
    let ghost t = chars@.subrange(lo as int, hi as int);
    if lo == hi {
        return None;
    }
    let mut out: Vec<NormalizedVolume> = Vec::new();
    let mut part_start = lo;
    let mut i = lo;
    proof {
        assert(t.take(0) == Seq::<char>::empty());
        assert(chars@.subrange(lo as int, lo as int) == Seq::<char>::empty());
    }
    while i < hi
        invariant
            lo <= part_start <= i <= hi <= chars.len(),
            t == chars@.subrange(lo as int, hi as int),
            t == trim(line@),
            split_bar(t.take(i - lo)).last() == chars@.subrange(part_start as int, i as int),
            out@.len() == split_bar(t.take(i - lo)).len() - 1,
            forall|j: int|
                0 <= j < out@.len() ==> {
                    &&& parse_u16(trim(#[trigger] split_bar(t.take(i - lo))[j])) is Some
                    &&& out@[j]@ == slider_value(
                        parse_u16(trim(split_bar(t.take(i - lo))[j]))->0 as nat,
                        max_value as nat,
                        invert,
                    )
                },
        decreases hi - i,
    {
        let ghost k = i - lo;
        let ghost prev = split_bar(t.take(k));
        let ghost next = split_bar(t.take(k + 1));
        proof {
            lemma_split_bar_nonempty(t.take(k));
            assert(t.take(k + 1).drop_last() == t.take(k));
            assert(t.take(k + 1).last() == chars@[i as int]);
        }
        let c = chars[i];
        if c == '|' {
            let parsed = parse_u16_trimmed(&chars, part_start, i);
            match parsed {
                None => {
                    proof {
                        lemma_split_bar_prefix(t, k + 1, t.len() as int);
                        assert(t.take(t.len() as int) == t);
                        assert(next[prev.len() - 1] == prev.last());
                        assert(parse_u16(trim(split_bar(t)[prev.len() - 1])) is None);
                    }
                    return None;
                },
                Some(raw) => {
                    let v = normalize(raw, max_value, invert);
                    out.push(v);
                    part_start = i + 1;
                    proof {
                        assert forall|j: int| 0 <= j < out@.len() implies {
                            &&& parse_u16(trim(#[trigger] next[j])) is Some
                            &&& out@[j]@ == slider_value(
                                parse_u16(trim(next[j]))->0 as nat,
                                max_value as nat,
                                invert,
                            )
                        } by {
                            if j < out@.len() - 1 {
                                assert(next[j] == prev[j]);
                            }
                        }
                        assert(chars@.subrange(part_start as int, i + 1) == Seq::<char>::empty());
                    }
                },
            }
        } else {
            proof {
                assert(chars@.subrange(part_start as int, i + 1) == chars@.subrange(
                    part_start as int,
                    i as int,
                ).push(c));
                assert forall|j: int| 0 <= j < out@.len() implies #[trigger] next[j] == prev[j] by {}
            }
        }
        i = i + 1;
    }
    let ghost parts = split_bar(t.take(i - lo));
    assert(t.take(i - lo) == t);
    proof {
        lemma_split_bar_nonempty(t);
    }
    let parsed = parse_u16_trimmed(&chars, part_start, hi);
    match parsed {
        None => {
            assert(parse_u16(trim(parts[parts.len() - 1])) is None);
            None
        },
        Some(raw) => {
            let v = normalize(raw, max_value, invert);
            out.push(v);
            proof {
                let spec_frame = parse_frame(line@, max_value, invert);
                assert(!exists|j: int|
                    0 <= j < parts.len() && parse_u16(trim(#[trigger] parts[j])) is None) by {
                    assert forall|j: int| 0 <= j < parts.len() implies parse_u16(
                        trim(#[trigger] parts[j]),
                    ) is Some by {
                        if j < parts.len() - 1 {
                            assert(parse_u16(trim(split_bar(t.take(i - lo))[j])) is Some);
                        }
                    }
                }
            }
            Some(out)
        },
    }
}

/// Inverted sliders accept exactly the same lines, and read every slider as the complement of
/// its plain reading.
pub proof fn lemma_parse_invert(line: Seq<char>, max_value: u16)
    ensures
        parse_frame(line, max_value, true) is Some <==> parse_frame(line, max_value, false) is Some,
        parse_frame(line, max_value, true) is Some ==> {
            let inv = parse_frame(line, max_value, true)->0;
            let plain = parse_frame(line, max_value, false)->0;
            &&& inv.len() == plain.len()
            &&& forall|i: int| 0 <= i < inv.len() ==> #[trigger] inv[i] == SCALE - plain[i]
        },
{
    let t = trim(line);
    let parts = split_bar(t);
    if parse_frame(line, max_value, true) is Some {
        let inv = parse_frame(line, max_value, true)->0;
        let plain = parse_frame(line, max_value, false)->0;
        assert forall|i: int| 0 <= i < inv.len() implies #[trigger] inv[i] == SCALE - plain[i] by {
            let raw = parse_u16(trim(parts[i]))->0 as nat;
            lemma_slider_value_bound(raw, max_value as nat);
        }
    }
}

/// Division rounded down: the quotient times the divisor lies within one divisor below `a`.
proof fn lemma_floor_div(a: int, d: int)
    requires
        0 <= a,
        0 < d,
    ensures
        d * (a / d) <= a < d * (a / d) + d,
{
    vstd::arithmetic::div_mod::lemma_fundamental_div_mod(a, d);
    vstd::arithmetic::div_mod::lemma_mod_pos_bound(a, d);
}

/// What a reading stands for, over every input. With a positive maximum, a reading up to the
/// maximum is that fraction of full volume rounded down (`raw / max_value` of `SCALE`), a
/// reading at or above it is full volume, and an inverted reading is the complement of the
/// plain one. With a maximum of zero the plain reading is silence and the inverted one full
/// volume.
pub proof fn lemma_slider_value_scaled(raw: nat, max_value: nat)
    ensures
        max_value > 0 && raw <= max_value ==> {
            let v = slider_value(raw, max_value, false);
            &&& v * max_value <= raw * SCALE
            &&& raw * SCALE < (v + 1) * max_value
        },
        max_value > 0 && raw >= max_value ==> slider_value(raw, max_value, false) == SCALE,
        slider_value(raw, max_value, false) <= SCALE,
        slider_value(raw, max_value, true) + slider_value(raw, max_value, false) == SCALE,
        max_value == 0 ==> slider_value(raw, max_value, false) == 0 && slider_value(
            raw,
            max_value,
            true,
        ) == SCALE,
{
    lemma_slider_value_bound(raw, max_value);
    if max_value > 0 && raw <= max_value {
        let a = (raw * (SCALE as nat)) as int;
        let d = max_value as int;
        lemma_floor_div(a, d);
        let v = slider_value(raw, max_value, false);
        assert(v == a / d);
        assert(v * max_value == d * (a / d)) by (nonlinear_arith)
            requires
                v == a / d,
                d == max_value,
        ;
        assert((v + 1) * max_value == d * (a / d) + d) by (nonlinear_arith)
            requires
                v == a / d,
                d == max_value,
        ;
    }
}

/// A plain reading lies within `[0, SCALE]`, and readings at or above the maximum are full
/// volume.
pub proof fn lemma_slider_value_bound(raw: nat, max_value: nat)
    ensures
        slider_value(raw, max_value, false) <= SCALE,
        max_value > 0 && raw >= max_value ==> slider_value(raw, max_value, false) == SCALE,
        max_value > 0 && raw >= max_value ==> slider_value(raw, max_value, true) == 0,
{
    if max_value > 0 {
        let m: nat = if raw < max_value {
            raw
        } else {
            max_value
        };
        assert(m * (SCALE as nat) / max_value <= SCALE) by (nonlinear_arith)
            requires
                m <= max_value,
                max_value > 0,
        ;
        if raw >= max_value {
            assert(max_value * (SCALE as nat) / max_value == SCALE) by (nonlinear_arith)
                requires
                    max_value > 0,
            ;
        }
    }
}

} // verus!

verus! {

/// Sum of a sequence of readings.
pub open spec fn seq_sum(h: Seq<nat>) -> nat
    decreases h.len(),
{
    if h.len() == 0 {
        0
    } else {
        seq_sum(h.drop_last()) + h.last()
    }
}

/// Mean of a sequence of readings, rounded down (zero for no readings).
pub open spec fn average(h: Seq<nat>) -> nat {
    if h.len() == 0 {
        0
    } else {
        seq_sum(h) / h.len()
    }
}

/// `h` with `x` appended, dropping the oldest reading first when `h` already holds `window`.
pub open spec fn push_window(h: Seq<nat>, x: nat, window: nat) -> Seq<nat> {
    (if h.len() == window {
        h.drop_first()
    } else {
        h
    }).push(x)
}

/// The distance between two readings.
pub open spec fn diff(a: nat, b: nat) -> nat {
    if a >= b {
        (a - b) as nat
    } else {
        (b - a) as nat
    }
}

/// Moving-average window and minimum reported change (in units of `1 / SCALE`) for a
/// noise-reduction level.
pub open spec fn noise_parameters(reduction: NoiseReduction) -> (nat, nat) {
    match reduction {
        NoiseReduction::Low => (4, 3000),
        NoiseReduction::Default => (8, 10000),
        NoiseReduction::High => (16, 20000),
    }
}

/// The noise-reduction levels: `Low` averages 4 readings and reports changes above 0.3% of
/// full volume, `Default` 8 readings and 1%, `High` 16 readings and 2%. More noise reduction
/// means a longer window and a wider deadband.
pub proof fn lemma_noise_parameters()
    ensures
        noise_parameters(NoiseReduction::Low) == (4nat, 3 * (SCALE as nat) / 1000),
        noise_parameters(NoiseReduction::Default) == (8nat, (SCALE as nat) / 100),
        noise_parameters(NoiseReduction::High) == (16nat, (SCALE as nat) / 50),
        noise_parameters(NoiseReduction::Low).0 < noise_parameters(NoiseReduction::Default).0
            < noise_parameters(NoiseReduction::High).0,
        noise_parameters(NoiseReduction::Low).1 < noise_parameters(NoiseReduction::Default).1
            < noise_parameters(NoiseReduction::High).1,
{
}

proof fn lemma_sum_bound(h: Seq<nat>, bound: nat)
    requires
        forall|i: int| 0 <= i < h.len() ==> #[trigger] h[i] <= bound,
    ensures
        seq_sum(h) <= h.len() * bound,
    decreases h.len(),
{
    if h.len() > 0 {
        let t = h.drop_last();
        assert forall|i: int| 0 <= i < t.len() implies #[trigger] t[i] <= bound by {
            assert(t[i] == h[i]);
        }
        lemma_sum_bound(t, bound);
        assert(h.len() * bound == t.len() * bound + bound) by (nonlinear_arith)
            requires
                h.len() == t.len() + 1,
        ;
    }
}

proof fn lemma_average_bound(h: Seq<nat>, bound: nat)
    requires
        forall|i: int| 0 <= i < h.len() ==> #[trigger] h[i] <= bound,
    ensures
        average(h) <= bound,
{
    if h.len() > 0 {
        lemma_sum_bound(h, bound);
        let s = seq_sum(h);
        let n = h.len();
        assert(s / n <= bound) by (nonlinear_arith)
            requires
                s <= n * bound,
                n > 0,
        ;
    }
}

/// The values of a frame, in units of `1 / SCALE`.
pub open spec fn frame_values(frame: Seq<NormalizedVolume>) -> Seq<nat> {
    frame.map_values(|v: NormalizedVolume| v@)
}

/// The readings of a history buffer.
pub open spec fn readings(buf: Seq<u32>) -> Seq<nat> {
    buf.map_values(|x: u32| x as nat)
}

/// Smooths noisy analog readings with a moving average and suppresses updates too small to
/// matter.
///
/// Each slider keeps its last `window` readings; a slider is reported as moved when it has not
/// been reported yet, or when its average is more than `epsilon` away from the last reported
/// value.
pub struct SliderSmoother {
    window: usize,
    epsilon: u32,
    history: Vec<VecDeque<u32>>,
    last_emitted: Vec<Option<NormalizedVolume>>,
}

impl SliderSmoother {
    /// Number of readings averaged per slider.
    pub closed spec fn window(&self) -> nat {
        self.window as nat
    }

    /// Minimum change of the average, in units of `1 / SCALE`, that counts as a movement.
    pub closed spec fn epsilon(&self) -> nat {
        self.epsilon as nat
    }

    /// Number of sliders seen so far.
    pub closed spec fn len(&self) -> nat {
        self.history@.len()
    }

    /// The readings kept for slider `i`, oldest first (none for a slider not seen yet).
    pub closed spec fn history(&self, i: int) -> Seq<nat> {
        if 0 <= i < self.history@.len() {
            readings(self.history@[i]@)
        } else {
            Seq::empty()
        }
    }

    /// The value last reported for slider `i`, if any.
    pub closed spec fn last(&self, i: int) -> Option<nat> {
        if 0 <= i < self.last_emitted@.len() {
            match self.last_emitted@[i] {
                Some(v) => Some(v@),
                None => None,
            }
        } else {
            None
        }
    }

    /// Internal consistency: one history and one last value per slider, each history holding
    /// at most `window` in-range readings.
    pub closed spec fn wf(&self) -> bool {
        &&& 1 <= self.window <= 16
        &&& self.history@.len() == self.last_emitted@.len()
        &&& forall|i: int|
            0 <= i < self.history@.len() ==> {
                &&& #[trigger] self.history@[i]@.len() <= self.window
                &&& forall|j: int|
                    0 <= j < self.history@[i]@.len() ==> #[trigger] self.history@[i]@[j] <= SCALE
            }
    }

    /// Readings of slider `i` after recording `x`.
    pub open spec fn next_history(&self, i: int, x: nat) -> Seq<nat> {
        push_window(self.history(i), x, self.window())
    }

    /// The smoothed value of slider `i` after recording `x`.
    pub open spec fn smoothed(&self, i: int, x: nat) -> nat {
        average(self.next_history(i, x))
    }

    /// Whether recording `x` for slider `i` is reported as a movement.
    pub open spec fn moves(&self, i: int, x: nat) -> bool {
        match self.last(i) {
            None => true,
            Some(prev) => diff(self.smoothed(i, x), prev) > self.epsilon(),
        }
    }

    /// The `(index, smoothed value)` pairs reported for the first `k` readings of `frame`,
    /// in slider order.
    pub open spec fn changes(&self, frame: Seq<nat>, k: int) -> Seq<(int, nat)>
        decreases k,
    {
        if k <= 0 {
            Seq::empty()
        } else {
            let prev = self.changes(frame, k - 1);
            if self.moves(k - 1, frame[k - 1]) {
                prev.push((k - 1, self.smoothed(k - 1, frame[k - 1])))
            } else {
                prev
            }
        }
    }

    /// Creates a smoother with the window and threshold of a noise-reduction level, with no
    /// slider seen yet.
    pub fn new(reduction: NoiseReduction) -> (r: Self)
        ensures
            r.wf(),
            r.window() == noise_parameters(reduction).0,
            r.epsilon() == noise_parameters(reduction).1,
            r.len() == 0,
            forall|i: int| #[trigger] r.history(i) == Seq::<nat>::empty(),
            forall|i: int| #[trigger] r.last(i) is None,
            reduction is Low ==> r.window() == 4 && r.epsilon() == 3 * SCALE / 1000,
            reduction is Default ==> r.window() == 8 && r.epsilon() == SCALE / 100,
            reduction is High ==> r.window() == 16 && r.epsilon() == SCALE / 50,
    {
        let (window, epsilon): (usize, u32) = match reduction {
            NoiseReduction::Low => (4, 3000),
            NoiseReduction::Default => (8, 10000),
            NoiseReduction::High => (16, 20000),
        };
        SliderSmoother { window, epsilon, history: Vec::new(), last_emitted: Vec::new() }
    }

    /// Mean of the readings in `buf`.
    fn buffer_average(buf: &VecDeque<u32>) -> (r: NormalizedVolume)
        requires
            buf@.len() <= 16,
            forall|j: int| 0 <= j < buf@.len() ==> #[trigger] buf@[j] <= SCALE,
        ensures
            r@ == average(readings(buf@)),
    {
        let ghost h = readings(buf@);
        let n = buf.len();
        let mut sum: u64 = 0;
        let mut j: usize = 0;
        while j < n
            invariant
                n == buf@.len() <= 16,
                h == readings(buf@),
                j <= n,
                forall|k: int| 0 <= k < buf@.len() ==> #[trigger] buf@[k] <= SCALE,
                sum == seq_sum(h.take(j as int)),
                sum <= j * 1_000_000,
            decreases n - j,
        {
            let x = buf[j];
            proof {
                assert(h.take(j + 1).drop_last() == h.take(j as int));
                assert(h.take(j + 1).last() == x as nat);
            }
            sum = sum + x as u64;
            j = j + 1;
        }
        assert(h.take(n as int) == h);
        proof {
            assert forall|k: int| 0 <= k < h.len() implies #[trigger] h[k] <= SCALE by {
                assert(h[k] == buf@[k] as nat);
            }
            lemma_average_bound(h, SCALE as nat);
        }
        if n == 0 {
            NormalizedVolume::from_units(0)
        } else {
            NormalizedVolume::from_units((sum / (n as u64)) as u32)
        }
    }

    /// Feeds a frame in and returns `(index, value)` for the sliders that moved enough to be
    /// worth acting on, in slider order. The frame may be longer than any frame before it
    /// (sliders not seen yet start with no readings); sliders beyond its end keep their state.
    pub fn update(&mut self, frame: &SliderFrame) -> (r: Vec<(usize, NormalizedVolume)>)
        requires
            old(self).wf(),
        ensures
            final(self).wf(),
            final(self).window() == old(self).window(),
            final(self).epsilon() == old(self).epsilon(),
            final(self).len() == if frame@.len() > old(self).len() {
                frame@.len()
            } else {
                old(self).len()
            },
            forall|i: int|
                0 <= i < frame@.len() ==> #[trigger] final(self).history(i) == old(self).next_history(
                    i,
                    frame@[i]@,
                ),
            forall|i: int|
                0 <= i < frame@.len() ==> #[trigger] final(self).last(i) == if old(self).moves(
                    i,
                    frame@[i]@,
                ) {
                    Some(old(self).smoothed(i, frame@[i]@))
                } else {
                    old(self).last(i)
                },
            forall|i: int|
                frame@.len() <= i ==> #[trigger] final(self).history(i) == old(self).history(i),
            forall|i: int| frame@.len() <= i ==> #[trigger] final(self).last(i) == old(self).last(i),
            r@.len() == old(self).changes(frame_values(frame@), frame@.len() as int).len(),
            forall|j: int|
                0 <= j < r@.len() ==> {
                    &&& (#[trigger] r@[j]).0 as int == old(self).changes(
                        frame_values(frame@),
                        frame@.len() as int,
                    )[j].0
                    &&& r@[j].1@ == old(self).changes(
                        frame_values(frame@),
                        frame@.len() as int,
                    )[j].1
                },
    {
        let ghost pre = *old(self);
        let ghost values = frame_values(frame@);
        let n = frame.len();
        while self.history.len() < n
            invariant
                self.wf(),
                self.window == pre.window,
                self.epsilon == pre.epsilon,
                pre.len() <= self.history@.len() <= if n > pre.len() {
                    n as nat
                } else {
                    pre.len()
                },
                n == frame@.len(),
                forall|i: int| #[trigger] self.history(i) == pre.history(i),
                forall|i: int| #[trigger] self.last(i) == pre.last(i),
            decreases n - self.history.len(),
        {
            let ghost s0 = *self;
            self.history.push(VecDeque::new());
            self.last_emitted.push(None);
            proof {
                assert forall|i: int| #[trigger] self.history(i) == pre.history(i) by {
                    if i == self.history@.len() - 1 {
                        assert(self.history@[i]@ == Seq::<u32>::empty());
                        assert(readings(Seq::<u32>::empty()) == Seq::<nat>::empty());
                        assert(s0.history(i) == Seq::<nat>::empty());
                    } else if 0 <= i < s0.history@.len() {
                        assert(self.history@[i] == s0.history@[i]);
                        assert(s0.history(i) == pre.history(i));
                    } else {
                        assert(s0.history(i) == pre.history(i));
                    }
                }
                assert forall|i: int| #[trigger] self.last(i) == pre.last(i) by {
                    if i == self.last_emitted@.len() - 1 {
                        assert(s0.last(i) == pre.last(i));
                    } else if 0 <= i < s0.last_emitted@.len() {
                        assert(self.last_emitted@[i] == s0.last_emitted@[i]);
                        assert(s0.last(i) == pre.last(i));
                    } else {
                        assert(s0.last(i) == pre.last(i));
                    }
                }
            }
        }
        let mut changed: Vec<(usize, NormalizedVolume)> = Vec::new();
        let mut i: usize = 0;
        while i < n
            invariant
                self.wf(),
                self.window == pre.window,
                self.epsilon == pre.epsilon,
                n == frame@.len() <= self.history@.len(),
                self.history@.len() == if n > pre.len() {
                    n as nat
                } else {
                    pre.len()
                },
                values == frame_values(frame@),
                i <= n,
                forall|k: int| 0 <= k < i ==> #[trigger] self.history(k) == pre.next_history(k, values[k]),
                forall|k: int|
                    0 <= k < i ==> #[trigger] self.last(k) == if pre.moves(k, values[k]) {
                        Some(pre.smoothed(k, values[k]))
                    } else {
                        pre.last(k)
                    },
                forall|k: int| i <= k ==> #[trigger] self.history(k) == pre.history(k),
                forall|k: int| i <= k ==> #[trigger] self.last(k) == pre.last(k),
                changed@.len() == pre.changes(values, i as int).len(),
                forall|j: int|
                    0 <= j < changed@.len() ==> {
                        &&& (#[trigger] changed@[j]).0 as int == pre.changes(values, i as int)[j].0
                        &&& changed@[j].1@ == pre.changes(values, i as int)[j].1
                    },
            decreases n - i,
        {
            let raw = frame[i].get();
            assert(values[i as int] == raw as nat);
            let ghost s0 = *self;
            let ghost before = self.history@[i as int]@;
            assert(s0.history(i as int) == pre.history(i as int));
            assert(readings(before) == pre.history(i as int));
            if self.history[i].len() == self.window {
                self.history[i].pop_front();
            }
            self.history[i].push_back(raw);
            proof {
                let after = self.history@[i as int]@;
                let cut = if before.len() == pre.window { before.drop_first() } else { before };
                assert(after == cut.push(raw));
                assert(readings(after) == push_window(readings(before), raw as nat, pre.window()));
                assert forall|k: int| 0 <= k < self.history@.len() implies {
                    &&& #[trigger] self.history@[k]@.len() <= self.window
                    &&& forall|j: int|
                        0 <= j < self.history@[k]@.len() ==> #[trigger] self.history@[k]@[j]
                            <= SCALE
                } by {
                    if k == i {
                        assert forall|j: int| 0 <= j < after.len() implies #[trigger] after[j] <= SCALE by {
                            if j < after.len() - 1 {
                                assert(after[j] == cut[j]);
                                if before.len() == pre.window {
                                    assert(cut[j] == before[j + 1]);
                                }
                            }
                        }
                    }
                }
                assert forall|k: int| 0 <= k <= i implies #[trigger] self.history(k)
                    == pre.next_history(k, values[k]) by {
                    if k < i {
                        assert(self.history@[k] == s0.history@[k]);
                        assert(s0.history(k) == pre.next_history(k, values[k]));
                    }
                }
                assert forall|k: int| i < k implies #[trigger] self.history(k) == pre.history(k) by {
                    if k < self.history@.len() {
                        assert(self.history@[k] == s0.history@[k]);
                    }
                    assert(s0.history(k) == pre.history(k));
                }
            }
            let smoothed = Self::buffer_average(&self.history[i]);
            assert(smoothed@ == pre.smoothed(i as int, values[i as int]));
            let moved = match self.last_emitted[i] {
                None => true,
                Some(prev) => {
                    let a = smoothed.get();
                    let b = prev.get();
                    let d = if a >= b {
                        a - b
                    } else {
                        b - a
                    };
                    d > self.epsilon
                },
            };
            assert(s0.last(i as int) == pre.last(i as int));
            assert(moved == pre.moves(i as int, values[i as int]));
            let ghost s1 = *self;
            if moved {
                self.last_emitted.set(i, Some(smoothed));
                changed.push((i, smoothed));
            }
            proof {
                assert(self.history@ == s1.history@);
                assert forall|k: int| #[trigger] self.history(k) == s1.history(k) by {}
                assert forall|k: int|
                    0 <= k <= i implies #[trigger] self.last(k) == if pre.moves(k, values[k]) {
                        Some(pre.smoothed(k, values[k]))
                    } else {
                        pre.last(k)
                    } by {
                    if k < i {
                        assert(self.last_emitted@[k] == s0.last_emitted@[k]);
                        assert(s0.last(k) == if pre.moves(k, values[k]) {
                            Some(pre.smoothed(k, values[k]))
                        } else {
                            pre.last(k)
                        });
                    }
                }
                assert forall|k: int| i < k implies #[trigger] self.last(k) == pre.last(k) by {
                    if k < self.last_emitted@.len() {
                        assert(self.last_emitted@[k] == s0.last_emitted@[k]);
                    }
                    assert(s0.last(k) == pre.last(k));
                }
                assert forall|j: int|
                    0 <= j < changed@.len() implies {
                        &&& (#[trigger] changed@[j]).0 as int == pre.changes(values, i + 1)[j].0
                        &&& changed@[j].1@ == pre.changes(values, i + 1)[j].1
                    } by {}
            }
            i = i + 1;
        }
        assert(i == n);
        assert(pre == *old(self));
        assert(values == frame_values(frame@));
        changed
    }
}

/// `h` after recording the reading `x` `n` times.
pub open spec fn push_repeat(h: Seq<nat>, x: nat, window: nat, n: nat) -> Seq<nat>
    decreases n,
{
    if n == 0 {
        h
    } else {
        push_window(push_repeat(h, x, window, (n - 1) as nat), x, window)
    }
}

proof fn lemma_push_repeat(h: Seq<nat>, x: nat, window: nat, k: nat)
    requires
        1 <= window,
        h.len() <= window,
        k <= window,
    ensures
        push_repeat(h, x, window, k).len() == if h.len() + k < window {
            h.len() + k
        } else {
            window
        },
        forall|j: int|
            push_repeat(h, x, window, k).len() - k <= j < push_repeat(h, x, window, k).len()
                ==> #[trigger] push_repeat(h, x, window, k)[j] == x,
    decreases k,
{
    if k > 0 {
        lemma_push_repeat(h, x, window, (k - 1) as nat);
        let r = push_repeat(h, x, window, (k - 1) as nat);
        let n = push_repeat(h, x, window, k);
        assert(n == push_window(r, x, window));
        if r.len() == window {
            assert forall|j: int| n.len() - k <= j < n.len() implies #[trigger] n[j] == x by {
                if j < n.len() - 1 {
                    assert(n[j] == r[j + 1]);
                }
            }
        } else {
            assert forall|j: int| n.len() - k <= j < n.len() implies #[trigger] n[j] == x by {
                if j < n.len() - 1 {
                    assert(n[j] == r[j]);
                }
            }
        }
    }
}

proof fn lemma_sum_constant(h: Seq<nat>, x: nat)
    requires
        forall|j: int| 0 <= j < h.len() ==> #[trigger] h[j] == x,
    ensures
        seq_sum(h) == h.len() * x,
    decreases h.len(),
{
    if h.len() > 0 {
        let t = h.drop_last();
        assert forall|j: int| 0 <= j < t.len() implies #[trigger] t[j] == x by {
            assert(t[j] == h[j]);
        }
        lemma_sum_constant(t, x);
        assert(h.len() * x == t.len() * x + x) by (nonlinear_arith)
            requires
                h.len() == t.len() + 1,
        ;
    }
}

/// After `window` identical readings, a slider's moving average is exactly that reading,
/// whatever it held before.
pub proof fn lemma_steady_reading_converges(h: Seq<nat>, x: nat, window: nat)
    requires
        1 <= window,
        h.len() <= window,
    ensures
        average(push_repeat(h, x, window, window)) == x,
{
    lemma_push_repeat(h, x, window, window);
    let r = push_repeat(h, x, window, window);
    lemma_sum_constant(r, x);
    assert(r.len() * x / r.len() == x) by (nonlinear_arith)
        requires
            r.len() >= 1,
    ;
}

impl SliderSmoother {
    /// A smoother that has seen no slider reports every slider of its first frame, in order.
    pub proof fn lemma_first_frame_reports_all(&self, frame: Seq<nat>, k: int)
        requires
            self.wf(),
            self.len() == 0,
            0 <= k <= frame.len(),
        ensures
            self.changes(frame, k).len() == k,
            forall|j: int| 0 <= j < k ==> (#[trigger] self.changes(frame, k)[j]).0 == j,
        decreases k,
    {
        if k > 0 {
            self.lemma_first_frame_reports_all(frame, k - 1);
            assert(self.last(k - 1) is None);
        }
    }

    /// After recording `x` for slider `i`, the value last reported for it exists and lies
    /// within `epsilon` of its moving average.
    pub proof fn lemma_reported_within_epsilon(&self, i: int, x: nat)
        ensures
            ({
                let reported = if self.moves(i, x) {
                    Some(self.smoothed(i, x))
                } else {
                    self.last(i)
                };
                &&& reported is Some
                &&& diff(reported->0, self.smoothed(i, x)) <= self.epsilon()
            }),
    {
    }

    /// The deadband, both ways: recording `x` for slider `i` is reported exactly when the slider
    /// was never reported, or its new moving average lies more than `epsilon` away from the
    /// value last reported. A slider whose average has not moved is never reported again.
    pub proof fn lemma_moves_deadband(&self, i: int, x: nat)
        ensures
            self.moves(i, x) <==> (self.last(i) is None || self.smoothed(i, x) > self.last(i)->0
                + self.epsilon() || self.last(i)->0 > self.smoothed(i, x) + self.epsilon()),
            self.last(i) == Some(self.smoothed(i, x)) ==> !self.moves(i, x),
    {
    }

    /// The moving average: after recording `x`, slider `i` keeps its most recent readings (at
    /// most `window` of them, `x` last), and its smoothed value is their mean rounded down.
    pub proof fn lemma_smoothed_is_window_mean(&self, i: int, x: nat)
        requires
            self.wf(),
        ensures
            ({
                let old_h = self.history(i);
                let h = self.next_history(i, x);
                &&& 1 <= h.len() <= self.window()
                &&& h.len() == if old_h.len() < self.window() {
                    old_h.len() + 1
                } else {
                    self.window()
                }
                &&& h.last() == x
                &&& h.drop_last() == old_h.subrange(old_h.len() - (h.len() - 1), old_h.len() as int)
                &&& self.smoothed(i, x) * h.len() <= seq_sum(h)
                &&& seq_sum(h) < (self.smoothed(i, x) + 1) * h.len()
            }),
    {
        self.lemma_history_bounded(i);
        let old_h = self.history(i);
        let h = self.next_history(i, x);
        if old_h.len() == self.window() {
            assert(h.drop_last() =~= old_h.subrange(1, old_h.len() as int));
        } else {
            assert(h.drop_last() =~= old_h.subrange(0, old_h.len() as int));
        }
        let a = seq_sum(h) as int;
        let d = h.len() as int;
        lemma_floor_div(a, d);
        let v = self.smoothed(i, x);
        assert(v == a / d);
        assert(v * h.len() == d * (a / d)) by (nonlinear_arith)
            requires
                v == a / d,
                d == h.len(),
        ;
        assert((v + 1) * h.len() == d * (a / d) + d) by (nonlinear_arith)
            requires
                v == a / d,
                d == h.len(),
        ;
    }

    /// Every slider keeps at most `window` readings, each within `[0, SCALE]`.
    pub proof fn lemma_history_bounded(&self, i: int)
        requires
            self.wf(),
        ensures
            self.history(i).len() <= self.window(),
            forall|j: int| 0 <= j < self.history(i).len() ==> #[trigger] self.history(i)[j] <= SCALE,
    {
        if 0 <= i < self.history@.len() {
            assert forall|j: int| 0 <= j < self.history(i).len() implies #[trigger] self.history(i)[j] <= SCALE by {
                assert(self.history@[i]@[j] <= SCALE);
            }
        }
    }
}

} // verus!
