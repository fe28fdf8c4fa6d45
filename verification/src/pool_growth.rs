//! How the thread pool grows when every worker is blocked, and whether
//! raising its maximum while saturated takes effect.
//!
//! The pool, the barrier and the clock live outside this library; what they
//! recorded comes back here as counts and arrival times in microseconds,
//! and what the run shows is read off them.

use vstd::prelude::*;

use crate::text::{dec, digit_char, join_text, push_dec, push_joined, push_str, texts};

verus! {

/// What one saturation run recorded.
#[derive(Clone, Debug, PartialEq, Eq)]
pub struct GrowthObservation {
    /// The pool's maximum thread count.
    pub maximum: u32,
    /// Work items submitted.
    pub submitted: usize,
    /// Work items that started while every earlier one was blocked.
    pub started_while_blocked: usize,
    /// Distinct threads those items ran on.
    pub distinct_threads: usize,
    /// When each item started, in microseconds after the first submission,
    /// in ascending order.
    pub arrivals_us: Vec<u128>,
}

/// A value clamped into `u64`.
pub open spec fn saturate(value: nat) -> u64 {
    if value <= u64::MAX {
        value as u64
    } else {
        u64::MAX
    }
}

/// The latest arrival, or 0 when there are none.
pub open spec fn latest(arrivals: Seq<u128>) -> nat
    decreases arrivals.len(),
{
    if arrivals.len() == 0 {
        0
    } else {
        let rest = latest(arrivals.drop_last());
        if arrivals.last() > rest {
            arrivals.last() as nat
        } else {
            rest
        }
    }
}

/// The gap between arrival `i` and the next, or 0 if the next came first.
pub open spec fn gap(arrivals: Seq<u128>, i: int) -> nat {
    if arrivals[i + 1] >= arrivals[i] {
        (arrivals[i + 1] - arrivals[i]) as nat
    } else {
        0
    }
}

/// The largest gap between neighbouring arrivals, or 0 when there are
/// fewer than two.
pub open spec fn widest_gap(arrivals: Seq<u128>) -> nat
    decreases arrivals.len(),
{
    if arrivals.len() < 2 {
        0
    } else {
        let rest = widest_gap(arrivals.drop_last());
        let last = gap(arrivals, arrivals.len() - 2);
        if last > rest {
            last
        } else {
            rest
        }
    }
}

impl GrowthObservation {
    /// The pool started as many items as its maximum allows.
    pub fn saturated(&self) -> (saturated: bool)
        ensures
            saturated == (self.started_while_blocked >= self.maximum),
    {
        self.started_while_blocked >= self.maximum as usize
    }

    /// Every item that started ran on a thread of its own.
    pub fn one_thread_each(&self) -> (each: bool)
        ensures
            each == (self.distinct_threads == self.started_while_blocked),
    {
        self.distinct_threads == self.started_while_blocked
    }

    /// How long the last item took to start, in microseconds.
    pub fn slowest_arrival(&self) -> (micros: u64)
        ensures
            micros == saturate(latest(self.arrivals_us@)),
    {
        let mut widest: u128 = 0;
        let mut i: usize = 0;
        while i < self.arrivals_us.len()
            invariant
                i <= self.arrivals_us.len(),
                widest == latest(self.arrivals_us@.take(i as int)),
            decreases self.arrivals_us.len() - i,
        {
            proof {
                assert(self.arrivals_us@.take(i + 1).drop_last() =~= self.arrivals_us@.take(i as int));
            }
            if self.arrivals_us[i] > widest {
                widest = self.arrivals_us[i];
            }
            i = i + 1;
        }
        proof {
            assert(self.arrivals_us@.take(i as int) =~= self.arrivals_us@);
        }
        if widest <= 0xffff_ffff_ffff_ffff {
            widest as u64
        } else {
            u64::MAX
        }
    }

    /// The longest wait between one item starting and the next, in
    /// microseconds: where the pool stopped injecting threads promptly.
    pub fn largest_gap(&self) -> (micros: u64)
        ensures
            micros == saturate(widest_gap(self.arrivals_us@)),
    {
        let arrivals = &self.arrivals_us;
        if arrivals.len() < 2 {
            return 0;
        }
        let mut largest: u128 = 0;
        let mut i: usize = 1;
        while i < arrivals.len()
            invariant
                1 <= i <= arrivals.len(),
                largest == widest_gap(arrivals@.take(i as int)),
            decreases arrivals.len() - i,
        {
            proof {
                assert(arrivals@.take(i + 1).drop_last() =~= arrivals@.take(i as int));
                assert(gap(arrivals@.take(i + 1), i - 1) == gap(arrivals@, i - 1));
            }
            let step = if arrivals[i] >= arrivals[i - 1] { arrivals[i] - arrivals[i - 1] } else { 0 };
            if step > largest {
                largest = step;
            }
            i = i + 1;
        }
        proof {
            assert(arrivals@.take(i as int) =~= arrivals@);
        }
        if largest <= 0xffff_ffff_ffff_ffff {
            largest as u64
        } else {
            u64::MAX
        }
    }

    /// The number of items that started before the first gap of at least
    /// `threshold_us` microseconds: where the pool began to throttle.
    /// `None` when no gap is that long.
    pub fn throttles_after(&self, threshold_us: u64) -> (count: Option<usize>)
        ensures
            match count {
                Some(k) => 1 <= k < self.arrivals_us@.len() && gap(self.arrivals_us@, k - 1) >= threshold_us
                    && forall|j: int| 0 <= j < k - 1 ==> gap(self.arrivals_us@, j) < threshold_us,
                None => forall|j: int| 0 <= j < self.arrivals_us@.len() - 1 ==> gap(self.arrivals_us@, j) < threshold_us,
            },
    {
        let arrivals = &self.arrivals_us;
        if arrivals.len() < 2 {
            return None;
        }
        let mut i: usize = 1;
        while i < arrivals.len()
            invariant
                1 <= i <= arrivals.len(),
                arrivals == &self.arrivals_us,
                forall|j: int| 0 <= j < i - 1 ==> gap(arrivals@, j) < threshold_us,
            decreases arrivals.len() - i,
        {
            let step = if arrivals[i] >= arrivals[i - 1] { arrivals[i] - arrivals[i - 1] } else { 0 };
            proof {
                assert(step == gap(arrivals@, i - 1));
            }
            if step >= threshold_us as u128 {
                return Some(i);
            }
            i = i + 1;
        }
        None
    }
}

/// What raising the maximum of a saturated pool did.
#[derive(Clone, Copy, Debug, PartialEq, Eq, Structural)]
pub struct RaiseObservation {
    /// The maximum before the raise.
    pub base_max: u32,
    /// Items that had started before the raise.
    pub started_before_raise: usize,
    /// How long after the raise the next item started, in microseconds.
    pub delay_us: u64,
    /// Whether an item beyond the old maximum started at all.
    pub took_effect: bool,
}

impl RaiseObservation {
    /// The pool was at its old maximum when the raise was made, so the raise
    /// was tested against saturation.
    pub fn saturated_before_raise(self) -> (saturated: bool)
        ensures
            saturated == (self.started_before_raise == self.base_max),
    {
        self.started_before_raise == self.base_max as usize
    }
}

/// The digits after the point of a fraction `value / (divisor * 10)`, as
/// many as it takes and no trailing zeros: how `Duration`'s `Debug` writes
/// a fraction.
pub open spec fn fraction_digits(value: nat, divisor: nat) -> Seq<char>
    decreases divisor,
{
    if value == 0 || divisor == 0 {
        Seq::empty()
    } else {
        seq![digit_char(value / divisor, false)] + fraction_digits(value % divisor, divisor / 10)
    }
}

/// A whole part, its fraction and a unit, as `Duration`'s `Debug` writes
/// them: no point when the fraction is zero.
pub open spec fn decimal_text(whole: nat, fraction: nat, divisor: nat, unit: Seq<char>) -> Seq<char> {
    dec(whole) + (if fraction > 0 { "."@ + fraction_digits(fraction, divisor) } else { Seq::empty() }) + unit
}

/// A span of `micros` microseconds as `{:?}` writes a `Duration`: in
/// seconds, milliseconds or microseconds, whichever is the largest unit
/// with a nonzero whole part.
pub open spec fn duration_text(micros: u64) -> Seq<char> {
    let secs = micros / 1_000_000;
    let nanos = (micros % 1_000_000) * 1000;
    if secs > 0 {
        decimal_text(secs as nat, nanos as nat, 100_000_000, "s"@)
    } else if nanos >= 1_000_000 {
        decimal_text((nanos / 1_000_000) as nat, (nanos % 1_000_000) as nat, 100_000, "ms"@)
    } else if nanos >= 1000 {
        decimal_text((nanos / 1000) as nat, (nanos % 1000) as nat, 100, "\u{b5}s"@)
    } else {
        decimal_text(nanos as nat, 0, 1, "ns"@)
    }
}

/// Whether `n` is a power of ten no larger than `Duration`'s first
/// fractional divisor.
pub open spec fn decimal_divisor(n: nat) -> bool {
    n == 1 || n == 10 || n == 100 || n == 1000 || n == 10_000 || n == 100_000 || n == 1_000_000 || n
        == 10_000_000 || n == 100_000_000
}

fn push_decimal(out: &mut String, whole: u64, fraction: u64, divisor: u64, unit: &str)
    requires
        decimal_divisor(divisor as nat),
        fraction < divisor * 10,
    ensures
        final(out)@ == old(out)@ + decimal_text(whole as nat, fraction as nat, divisor as nat, unit@),
{
    let ghost start = out@;
    push_dec(out, whole);
    let ghost after_whole = out@;
    if fraction > 0 {
        push_str(out, ".");
        let mut value = fraction;
        let mut div = divisor;
        let ghost mut written: Seq<char> = Seq::empty();
        while value > 0 && div > 0
            invariant
                decimal_divisor(div as nat) || div == 0,
                div > 0 ==> value < div * 10,
                div == 0 ==> value == 0,
                written + fraction_digits(value as nat, div as nat) == fraction_digits(fraction as nat, divisor as nat),
                out@ == after_whole + "."@ + written,
            decreases div,
        {
            let digit = value / div;
            proof {
                assert(digit < 10) by (nonlinear_arith)
                    requires
                        value < div * 10,
                        div > 0,
                        digit == value / div,
                ;
                assert(fraction_digits(value as nat, div as nat) == seq![digit_char(digit as nat, false)]
                    + fraction_digits((value % div) as nat, (div / 10) as nat));
            }
            let c = ((48 + digit) as u8) as char;
            crate::text::push_char(out, c);
            proof {
                assert(c == digit_char(digit as nat, false));
                assert(written.push(c) + fraction_digits((value % div) as nat, (div / 10) as nat) =~= written + (seq![c]
                    + fraction_digits((value % div) as nat, (div / 10) as nat)));
                written = written.push(c);
            }
            let next = value % div;
            proof {
                assert(next < div) by (nonlinear_arith)
                    requires
                        div > 0,
                        next == value % div,
                ;
            }
            value = next;
            div = div / 10;
        }
        proof {
            assert(fraction_digits(value as nat, div as nat) =~= Seq::<char>::empty());
            assert(written + Seq::<char>::empty() =~= written);
        }
    }
    push_str(out, unit);
    proof {
        assert(out@ =~= start + decimal_text(whole as nat, fraction as nat, divisor as nat, unit@));
    }
}

/// Appends a span of `micros` microseconds as `{:?}` writes a `Duration`.
pub fn push_duration(out: &mut String, micros: u64)
    ensures
        final(out)@ == old(out)@ + duration_text(micros),
{
    let secs = micros / 1_000_000;
    let nanos = (micros % 1_000_000) * 1000;
    if secs > 0 {
        push_decimal(out, secs, nanos, 100_000_000, "s");
    } else if nanos >= 1_000_000 {
        push_decimal(out, nanos / 1_000_000, nanos % 1_000_000, 100_000, "ms");
    } else if nanos >= 1000 {
        push_decimal(out, nanos / 1000, nanos % 1000, 100, "\u{b5}s");
    } else {
        push_decimal(out, nanos, 0, 1, "ns");
    }
}

/// How `{:?}` writes a list of arrival times.
pub open spec fn arrivals_text(arrivals: Seq<u128>) -> Seq<char> {
    "["@ + join_text(arrivals.map_values(|a: u128| dec(a as nat)), ", "@) + "]"@
}

/// Whether a boolean reads `true` or `false`.
pub open spec fn bool_text(value: bool) -> Seq<char> {
    if value {
        "true"@
    } else {
        "false"@
    }
}

/// One run's lines under `label`.
pub open spec fn growth_text(label: Seq<char>, observed: GrowthObservation) -> Seq<char> {
    label + "\n"@ + "  max "@ + dec(observed.maximum as nat) + " / submitted "@ + dec(observed.submitted as nat)
        + " -> started while blocked "@ + dec(observed.started_while_blocked as nat) + ", distinct threads "@
        + dec(observed.distinct_threads as nat) + "\n"@ + "  saturated "@ + bool_text(
        observed.started_while_blocked >= observed.maximum,
    ) + " | one thread each "@ + bool_text(observed.distinct_threads == observed.started_while_blocked)
        + " | slowest arrival "@ + duration_text(saturate(latest(observed.arrivals_us@))) + "\n"@
        + "  arrivals (us): "@ + arrivals_text(observed.arrivals_us@) + "\n"@
}

fn push_bool(out: &mut String, value: bool)
    ensures
        final(out)@ == old(out)@ + bool_text(value),
{
    push_str(out, if value { "true" } else { "false" });
}

/// Appends one run's lines under `label`.
pub fn report(out: &mut String, label: &str, observed: &GrowthObservation)
    ensures
        final(out)@ == old(out)@ + growth_text(label@, *observed),
{
    let mut text = String::new();
    push_str(&mut text, label);
    proof {
        assert(text@ =~= label@);
    }
    push_str(&mut text, "\n");
    push_str(&mut text, "  max ");
    push_dec(&mut text, observed.maximum as u64);
    push_str(&mut text, " / submitted ");
    push_dec(&mut text, observed.submitted as u64);
    push_str(&mut text, " -> started while blocked ");
    push_dec(&mut text, observed.started_while_blocked as u64);
    push_str(&mut text, ", distinct threads ");
    push_dec(&mut text, observed.distinct_threads as u64);
    push_str(&mut text, "\n");
    push_str(&mut text, "  saturated ");
    push_bool(&mut text, observed.saturated());
    push_str(&mut text, " | one thread each ");
    push_bool(&mut text, observed.one_thread_each());
    push_str(&mut text, " | slowest arrival ");
    push_duration(&mut text, observed.slowest_arrival());
    push_str(&mut text, "\n");
    push_str(&mut text, "  arrivals (us): ");
    let mut items: Vec<String> = Vec::new();
    let mut i: usize = 0;
    while i < observed.arrivals_us.len()
        invariant
            i <= observed.arrivals_us.len(),
            texts(items@) == observed.arrivals_us@.take(i as int).map_values(|a: u128| dec(a as nat)),
        decreases observed.arrivals_us.len() - i,
    {
        let item = crate::text::digits_of_wide(observed.arrivals_us[i]);
        let ghost before = texts(items@);
        items.push(item);
        proof {
            assert(texts(items@) =~= before.push(dec(observed.arrivals_us@[i as int] as nat)));
            assert(observed.arrivals_us@.take(i + 1).map_values(|a: u128| dec(a as nat)) =~= observed.arrivals_us@.take(
                i as int,
            ).map_values(|a: u128| dec(a as nat)).push(dec(observed.arrivals_us@[i as int] as nat)));
        }
        i = i + 1;
    }
    proof {
        assert(observed.arrivals_us@.take(i as int) =~= observed.arrivals_us@);
    }
    push_str(&mut text, "[");
    push_joined(&mut text, &items, ", ");
    push_str(&mut text, "]");
    push_str(&mut text, "\n");
    proof {
        assert(text@ =~= growth_text(label@, *observed));
    }
    push_str(out, text.as_str());
}

/// What raising the maximum while saturated showed.
pub open spec fn raise_text(raise: RaiseObservation) -> Seq<char> {
    "P3 raise while saturated (2 -> 6):\n"@ + (if raise.started_before_raise == raise.base_max {
        "  extra work started "@ + duration_text(raise.delay_us) + " after the maximum was raised\n"@
    } else {
        "  NOT saturated before the raise ("@ + dec(raise.started_before_raise as nat) + " of "@ + dec(
            raise.base_max as nat,
        ) + " started), so the delay\n"@ + "  below times growth toward the base maximum, not the raise.\n"@
            + "  elapsed: "@ + duration_text(raise.delay_us) + "\n"@
    }) + (if !raise.took_effect {
        "  the settle window expired with no extra callback started.\n"@
    } else {
        Seq::empty()
    })
}

/// The pool-growth probe's report: growth to a maximum of four and of
/// eight, the same with runs-long work, then a raise while saturated.
pub open spec fn render_text(
    four: GrowthObservation,
    eight: GrowthObservation,
    runs_long: GrowthObservation,
    raise: RaiseObservation,
) -> Seq<char> {
    "== how a blocked pool grows ==\n\n"@ + growth_text("P1 growth curve, max 4:"@, four) + "\n"@ + growth_text(
        "P1 growth curve, max 8:"@,
        eight,
    ) + "\n"@ + growth_text("P2 the same, runs-long:"@, runs_long) + "\n"@ + raise_text(raise)
        + "\nnote: every number here is from this host and this Windows build.\n"@
        + "Re-run on another architecture rather than assuming they carry over.\n"@
}

/// The pool-growth probe's report.
pub fn render(
    four: &GrowthObservation,
    eight: &GrowthObservation,
    runs_long: &GrowthObservation,
    raise: RaiseObservation,
) -> (text: String)
    ensures
        text@ == render_text(*four, *eight, *runs_long, raise),
{
    let mut text = String::new();
    push_str(&mut text, "== how a blocked pool grows ==\n\n");
    proof {
        assert(text@ =~= "== how a blocked pool grows ==\n\n"@);
    }
    report(&mut text, "P1 growth curve, max 4:", four);
    push_str(&mut text, "\n");
    report(&mut text, "P1 growth curve, max 8:", eight);
    push_str(&mut text, "\n");
    report(&mut text, "P2 the same, runs-long:", runs_long);
    push_str(&mut text, "\n");
    let mut tail = String::new();
    push_str(&mut tail, "P3 raise while saturated (2 -> 6):\n");
    proof {
        assert(tail@ =~= "P3 raise while saturated (2 -> 6):\n"@);
    }
    if raise.saturated_before_raise() {
        push_str(&mut tail, "  extra work started ");
        push_duration(&mut tail, raise.delay_us);
        push_str(&mut tail, " after the maximum was raised\n");
    } else {
        push_str(&mut tail, "  NOT saturated before the raise (");
        push_dec(&mut tail, raise.started_before_raise as u64);
        push_str(&mut tail, " of ");
        push_dec(&mut tail, raise.base_max as u64);
        push_str(&mut tail, " started), so the delay\n");
        push_str(&mut tail, "  below times growth toward the base maximum, not the raise.\n");
        push_str(&mut tail, "  elapsed: ");
        push_duration(&mut tail, raise.delay_us);
        push_str(&mut tail, "\n");
    }
    if !raise.took_effect {
        push_str(&mut tail, "  the settle window expired with no extra callback started.\n");
    } else {
        proof {
            assert(tail@ =~= tail@ + Seq::<char>::empty());
        }
    }
    proof {
        assert(tail@ =~= raise_text(raise));
    }
    push_str(&mut text, tail.as_str());
    push_str(&mut text, "\nnote: every number here is from this host and this Windows build.\n");
    push_str(&mut text, "Re-run on another architecture rather than assuming they carry over.\n");
    text
}

} // verus!
