//! A fixed-window moving average over integer samples.
use vstd::prelude::*;

verus! {

/// Sum of a sequence of samples.
pub open spec fn sum(s: Seq<i64>) -> int
    decreases s.len(),
{
    if s.len() == 0 {
        0
    } else {
        sum(s.drop_last()) + s.last()
    }
}

/// Arithmetic mean (rounded down) of the samples, or 0 for no samples.
pub open spec fn mean(s: Seq<i64>) -> int {
    if s.len() == 0 {
        0
    } else {
        sum(s) / (s.len() as int)
    }
}

/// The value entered into the window for `value` with weight `ratio` percent,
/// blended with the current mean `avg` (rounded down).
pub open spec fn blend(avg: int, value: int, ratio: int) -> int {
    (avg * (100 - ratio) + value * ratio) / 100
}

/// The window after entering `v`: the oldest sample leaves once it is full.
pub open spec fn push_window(w: Seq<i64>, v: i64, capacity: nat) -> Seq<i64> {
    if w.len() < capacity {
        w.push(v)
    } else {
        w.drop_first().push(v)
    }
}

/// A moving average over the last `capacity` entered samples.
pub struct MovingAverage {
    capacity: usize,
    values: Vec<i64>,
    average: i64,
}

impl MovingAverage {
    /// The samples currently in the window, oldest first.
    pub closed spec fn window(&self) -> Seq<i64> {
        self.values@
    }

    /// How many samples the window holds at most.
    pub closed spec fn capacity(&self) -> nat {
        self.capacity as nat
    }

    pub closed spec fn wf(&self) -> bool {
        &&& 1 <= self.capacity
        &&& self.values@.len() <= self.capacity
        &&& self.average == mean(self.values@)
    }

    pub fn new(capacity: usize) -> (r: Self)
        requires
            capacity >= 1,
        ensures
            r.wf(),
            r.window() == Seq::<i64>::empty(),
            r.capacity() == capacity,
    {
        MovingAverage { capacity, values: Vec::new(), average: 0 }
    }

    /// The mean of the samples in the window (0 before the first update).
    pub fn get(&self) -> (r: i64)
        requires
            self.wf(),
        ensures
            r == mean(self.window()),
    {
        self.average
    }

    /// The number of samples in the window.
    pub fn len(&self) -> (r: usize)
        requires
            self.wf(),
        ensures
            r == self.window().len(),
            r <= self.capacity(),
    {
        self.values.len()
    }

    /// The sum of the samples in the window.
    pub fn total(&self) -> (r: i128)
        ensures
            r == sum(self.window()),
    {
        sum_exec(&self.values)
    }

    /// Enters `value` blended with the current mean at weight `ratio`
    /// percent (100 enters `value` itself), then recomputes the mean.
    pub fn update(&mut self, value: i64, ratio: u8)
        requires
            old(self).wf(),
            ratio <= 100,
        ensures
            final(self).wf(),
            final(self).capacity() == old(self).capacity(),
            final(self).window() == push_window(
                old(self).window(),
                blend(mean(old(self).window()), value as int, ratio as int) as i64,
                old(self).capacity(),
            ),
    {
        let entered = blend_exec(self.average, value, ratio);
        if self.values.len() >= self.capacity {
            self.values.remove(0);
        }
        self.values.push(entered);
        self.average = mean_exec(&self.values);
    }
}

/// The window of a fresh average of the given capacity after each of `vals`
/// was entered in order at full weight.
pub open spec fn filled(vals: Seq<i64>, capacity: nat) -> Seq<i64>
    decreases vals.len(),
{
    if vals.len() == 0 {
        Seq::empty()
    } else {
        let w = filled(vals.drop_last(), capacity);
        push_window(w, blend(mean(w), vals.last() as int, 100) as i64, capacity)
    }
}

/// The last `min(vals.len(), capacity)` samples of `vals`.
pub open spec fn most_recent(vals: Seq<i64>, capacity: nat) -> Seq<i64> {
    if vals.len() <= capacity {
        vals
    } else {
        vals.subrange(vals.len() - capacity, vals.len() as int)
    }
}

/// Entering samples at full weight keeps exactly the most recent `capacity`
/// of them, so the average is the mean of all samples while fewer than
/// `capacity` were entered, and of the last `capacity` samples after that.
pub proof fn lemma_full_weight_mean(vals: Seq<i64>, capacity: nat)
    requires
        capacity >= 1,
    ensures
        filled(vals, capacity) == most_recent(vals, capacity),
        mean(filled(vals, capacity)) == mean(most_recent(vals, capacity)),
    decreases vals.len(),
{
    if vals.len() > 0 {
        let prev = vals.drop_last();
        lemma_full_weight_mean(prev, capacity);
        let w = filled(prev, capacity);
        let v = vals.last();
        assert(blend(mean(w), v as int, 100) == v as int) by (nonlinear_arith)
            requires
                blend(mean(w), v as int, 100) == (mean(w) * (100 - 100) + (v as int) * 100) / 100,
        ;
        if prev.len() < capacity {
            assert(w.push(v) =~= most_recent(vals, capacity));
        } else if prev.len() == capacity {
            assert(w.drop_first().push(v) =~= most_recent(vals, capacity));
        } else {
            assert(w.drop_first().push(v) =~= most_recent(vals, capacity));
        }
    }
}

/// A sum of samples lies between the count times the smallest and largest `i64`.
pub proof fn lemma_sum_bounds(s: Seq<i64>)
    ensures
        s.len() * (i64::MIN as int) <= sum(s) <= s.len() * (i64::MAX as int),
    decreases s.len(),
{
    if s.len() > 0 {
        lemma_sum_bounds(s.drop_last());
    }
}

proof fn lemma_mean_bounds(s: Seq<i64>)
    ensures
        i64::MIN <= mean(s) <= i64::MAX,
{
    if s.len() > 0 {
        lemma_sum_bounds(s);
        let n = s.len() as int;
        let t = sum(s);
        assert(n * (i64::MIN as int) <= t <= n * (i64::MAX as int));
        assert(i64::MIN <= t / n <= i64::MAX) by (nonlinear_arith)
            requires
                n >= 1,
                n * (i64::MIN as int) <= t <= n * (i64::MAX as int),
        ;
    }
}

/// Floor division by a positive divisor.
fn floor_div(a: i128, b: i128) -> (q: i128)
    requires
        0 < b <= 0x1_0000_0000_0000_0000,
        a > i128::MIN,
    ensures
        q == a / b,
{
    if a >= 0 {
        let q = (a as u128 / b as u128) as i128;
        q
    } else {
        let n = (0 - a) as u128;
        let c = (n + (b as u128) - 1) / (b as u128);
        proof {
            let ni = n as int;
            let bi = b as int;
            let ci = c as int;
            assert(ci == (ni + bi - 1) / bi);
            assert(ci <= ni) by (nonlinear_arith)
                requires
                    ni >= 1,
                    bi >= 1,
                    ci == (ni + bi - 1) / bi,
            ;
            assert(-ci == (-ni) / bi) by (nonlinear_arith)
                requires
                    ni >= 1,
                    bi >= 1,
                    ci == (ni + bi - 1) / bi,
            {
                let r = (ni + bi - 1) % bi;
                assert(ni + bi - 1 == ci * bi + r);
                assert(0 <= r < bi);
                assert(-ni == (-ci) * bi + (bi - 1 - r));
            }
        }
        0 - (c as i128)
    }
}

fn blend_exec(avg: i64, value: i64, ratio: u8) -> (r: i64)
    requires
        ratio <= 100,
    ensures
        r == blend(avg as int, value as int, ratio as int),
{
    let a = avg as i128;
    let v = value as i128;
    let p = ratio as i128;
    proof {
        let lo = if avg <= value { avg as int } else { value as int };
        let hi = if avg <= value { value as int } else { avg as int };
        let t = (avg as int) * (100 - ratio as int) + (value as int) * (ratio as int);
        assert(lo * 100 <= t <= hi * 100) by (nonlinear_arith)
            requires
                0 <= ratio <= 100,
                lo <= avg <= hi,
                lo <= value <= hi,
                t == (avg as int) * (100 - ratio as int) + (value as int) * (ratio as int),
        ;
        assert(lo <= t / 100 <= hi) by (nonlinear_arith)
            requires
                lo * 100 <= t <= hi * 100,
        ;
        assert(-0x1000_0000_0000_0000_0000 <= (avg as int) * (100 - ratio as int) <= 0x1000_0000_0000_0000_0000)
            by (nonlinear_arith)
            requires
                0 <= ratio <= 100,
                i64::MIN <= avg <= i64::MAX,
        ;
        assert(-0x1000_0000_0000_0000_0000 <= (value as int) * (ratio as int) <= 0x1000_0000_0000_0000_0000)
            by (nonlinear_arith)
            requires
                0 <= ratio <= 100,
                i64::MIN <= value <= i64::MAX,
        ;
    }
    let q = floor_div(a * (100 - p) + v * p, 100);
    q as i64
}

fn sum_exec(values: &Vec<i64>) -> (r: i128)
    ensures
        r == sum(values@),
{
    let mut total: i128 = 0;
    let mut i: usize = 0;
    while i < values.len()
        invariant
            i <= values@.len(),
            total == sum(values@.subrange(0, i as int)),
        decreases values.len() - i,
    {
        proof {
            let s = values@.subrange(0, i as int + 1);
            assert(s.drop_last() =~= values@.subrange(0, i as int));
            lemma_sum_bounds(s);
            assert(i + 1 <= 0x1_0000_0000_0000_0000);
            assert(s.len() * (i64::MIN as int) >= -0x1_0000_0000_0000_0000 * 0x8000_0000_0000_0000)
                by (nonlinear_arith)
                requires
                    s.len() <= 0x1_0000_0000_0000_0000,
            ;
            assert(s.len() * (i64::MAX as int) <= 0x1_0000_0000_0000_0000 * 0x8000_0000_0000_0000)
                by (nonlinear_arith)
                requires
                    s.len() <= 0x1_0000_0000_0000_0000,
            ;
        }
        total = total + values[i] as i128;
        i = i + 1;
    }
    proof {
        assert(values@.subrange(0, values@.len() as int) =~= values@);
    }
    total
}

fn mean_exec(values: &Vec<i64>) -> (r: i64)
    ensures
        r == mean(values@),
{
    if values.len() == 0 {
        return 0;
    }
    let total = sum_exec(values);
    proof {
        lemma_mean_bounds(values@);
        lemma_sum_bounds(values@);
        assert(values@.len() * (i64::MIN as int) >= -0x1_0000_0000_0000_0000 * 0x8000_0000_0000_0000)
            by (nonlinear_arith)
            requires
                values@.len() <= 0x1_0000_0000_0000_0000,
        ;
        assert(values@.len() * (i64::MAX as int) <= 0x1_0000_0000_0000_0000 * 0x8000_0000_0000_0000)
            by (nonlinear_arith)
            requires
                values@.len() <= 0x1_0000_0000_0000_0000,
        ;
    }
    let q = floor_div(total, values.len() as i128);
    q as i64
}

/// At full weight the entered value is the sample itself.
pub proof fn lemma_blend_full(avg: int, value: int)
    ensures
        blend(avg, value, 100) == value,
{
    assert(blend(avg, value, 100) == value) by (nonlinear_arith)
        requires
            blend(avg, value, 100) == (avg * (100 - 100) + value * 100) / 100,
    ;
}

/// The mean of samples that are all non-negative is non-negative.
pub proof fn lemma_mean_nonneg(s: Seq<i64>)
    requires
        forall|i: int| 0 <= i < s.len() ==> s[i] >= 0,
    ensures
        sum(s) >= 0,
        mean(s) >= 0,
    decreases s.len(),
{
    if s.len() > 0 {
        lemma_mean_nonneg(s.drop_last());
        let n = s.len() as int;
        let t = sum(s);
        assert(t / n >= 0) by (nonlinear_arith)
            requires
                t >= 0,
                n >= 1,
        ;
    }
}

} // verus!
