//! The recursive mean filter, its model, and what holds of it: outputs never
//! leave the range of the samples, and a constant stream is approached
//! geometrically.

use crate::filter::{distance, Filter};
use vstd::arithmetic::power::{lemma_pow_positive, pow};
use vstd::prelude::*;

verus! {

/// Quotient of `a` by a positive `n`, rounded toward zero, as machine division
/// of signed integers rounds.
pub open spec fn div_toward_zero(a: int, n: int) -> int {
    if a >= 0 {
        a / n
    } else {
        -((-a) / n)
    }
}

/// `v` lies between zero and `l`, ends included.
pub open spec fn toward_zero_of(v: int, l: int) -> bool {
    (0 <= v <= l) || (l <= v <= 0)
}

/// The sequence that holds `v` exactly `k` times.
pub open spec fn constant(v: int, k: nat) -> Seq<int> {
    Seq::new(k, |i: int| v)
}

/// Abstract state of a [`MeanFilter`].
pub struct MeanState {
    /// The previous output, if any sample was taken yet.
    pub last: Option<int>,
    /// The window size.
    pub num: int,
}

impl MeanState {
    /// The window holds at least one sample.
    pub open spec fn valid(self) -> bool {
        self.num >= 1
    }

    /// The value handed back for `value`: the sample itself on the first call,
    /// afterwards the previous output weighted `num - 1` times against the
    /// sample once.
    pub open spec fn output(self, value: int) -> int {
        match self.last {
            Some(l) => div_toward_zero(l * (self.num - 1) + value, self.num),
            None => value,
        }
    }

    /// The state after `value` was taken.
    pub open spec fn step(self, value: int) -> MeanState {
        MeanState { last: Some(self.output(value)), num: self.num }
    }

    /// The state after all of `inputs` were taken, first to last.
    pub open spec fn feed(self, inputs: Seq<int>) -> MeanState
        decreases inputs.len(),
    {
        if inputs.len() == 0 {
            self
        } else {
            self.feed(inputs.drop_last()).step(inputs.last())
        }
    }

    /// The value handed back for `inputs[i]` when `inputs` are taken in order.
    pub open spec fn output_at(self, inputs: Seq<int>, i: int) -> int {
        self.feed(inputs.take(i)).output(inputs[i])
    }

    /// The previous output, if there is one, lies in `[lo, hi]`.
    pub open spec fn within(self, lo: int, hi: int) -> bool {
        match self.last {
            Some(l) => lo <= l <= hi,
            None => true,
        }
    }

    /// The states from which a constant stream of `v` brings the output to
    /// exactly `v`: a fresh filter, a window of one, or a previous output that
    /// has `v` on its side toward zero. From any other state the rounding
    /// toward zero holds the output short of `v`.
    pub open spec fn settles_on(self, v: int) -> bool {
        self.num == 1 || match self.last {
            Some(l) => toward_zero_of(v, l),
            None => true,
        }
    }

    /// A number of samples of `v` after which the output is `v` for good, from
    /// a state that `settles_on` it.
    pub open spec fn settling_ticks(self, v: int) -> nat {
        match self.last {
            Some(l) => if l == v {
                0
            } else if self.num == 1 {
                1
            } else {
                distance(l, v) as nat
            },
            None => 1,
        }
    }
}

/// Recursive mean filter over integers: every output blends the previous
/// output with the new sample, so all past samples weigh in, the recent ones
/// most.
pub struct MeanFilter {
    last: Option<i32>,
    num: i32,
}

impl View for MeanFilter {
    type V = MeanState;

    closed spec fn view(&self) -> MeanState {
        MeanState {
            last: match self.last {
                Some(l) => Some(l as int),
                None => None,
            },
            num: self.num as int,
        }
    }
}

impl MeanFilter {
    #[verifier::type_invariant]
    spec fn well_formed(self) -> bool {
        self.num >= 1
    }

    /// A fresh filter with a window of `n` samples.
    pub fn new(n: i32) -> (f: MeanFilter)
        requires
            n >= 1,
        ensures
            f@ == (MeanState { last: None, num: n as int }),
            f@.valid(),
    {
        MeanFilter { last: None, num: n }
    }
}

impl Filter for MeanFilter {
    fn filter(&mut self, value: i32) -> (out: i32)
        ensures
            old(self)@.valid(),
            final(self)@.valid(),
            final(self)@ == old(self)@.step(value as int),
            out == old(self)@.output(value as int),
    {
        proof {
            use_type_invariant(&*self);
        }
        let out: i32 = match self.last {
            Some(l) => {
                let weight: i64 = (self.num - 1) as i64;
                proof {
                    let lo: int = if l <= value { l as int } else { value as int };
                    let hi: int = if l <= value { value as int } else { l as int };
                    lemma_weighted_sum_bounds(l as int, value as int, self.num as int);
                    lemma_mean_step_bounded(self@, value as int, lo, hi);
                }
                let sum: i64 = (l as i64) * weight + (value as i64);
                (sum / (self.num as i64)) as i32
            },
            None => value,
        };
        self.last = Some(out);
        out
    }
}

/// The weighted sum of a previous output and a sample fits in 64 bits.
proof fn lemma_weighted_sum_bounds(l: int, v: int, n: int)
    by (nonlinear_arith)
    requires
        i32::MIN <= l <= i32::MAX,
        i32::MIN <= v <= i32::MAX,
        1 <= n <= i32::MAX,
    ensures
        i64::MIN <= l * (n - 1) <= i64::MAX,
        i64::MIN <= l * (n - 1) + v <= i64::MAX,
{
    assert(-0x8000_0000 * 0x7fff_fffe <= l * (n - 1) <= 0x8000_0000 * 0x7fff_fffe);
}

/// A quotient rounded toward zero stays between any two integers whose
/// multiples enclose the dividend.
proof fn lemma_div_toward_zero_bounds(a: int, n: int, lo: int, hi: int)
    by (nonlinear_arith)
    requires
        n >= 1,
        lo * n <= a <= hi * n,
    ensures
        lo <= div_toward_zero(a, n) <= hi,
{
    if a >= 0 {
        let q: int = a / n;
        assert(q * n <= a < (q + 1) * n);
    } else {
        let p: int = (-a) / n;
        assert(p * n <= -a < (p + 1) * n);
    }
}

/// One step of the mean filter keeps the output, and with it the state, inside
/// any interval that holds the previous output and the sample.
pub proof fn lemma_mean_step_bounded(s: MeanState, v: int, lo: int, hi: int)
    requires
        s.valid(),
        s.within(lo, hi),
        lo <= v <= hi,
    ensures
        lo <= s.output(v) <= hi,
        s.step(v).within(lo, hi),
        s.step(v).valid(),
{
    match s.last {
        Some(l) => {
            let n: int = s.num;
            assert(lo * n <= l * (n - 1) + v <= hi * n) by (nonlinear_arith)
                requires
                    n >= 1,
                    lo <= l <= hi,
                    lo <= v <= hi,
            ;
            lemma_div_toward_zero_bounds(l * (n - 1) + v, n, lo, hi);
        },
        None => {},
    }
}

/// Feeding samples never changes the window size.
pub proof fn lemma_mean_feed_keeps_window(s: MeanState, inputs: Seq<int>)
    ensures
        s.feed(inputs).num == s.num,
        s.valid() ==> s.feed(inputs).valid(),
    decreases inputs.len(),
{
    if inputs.len() > 0 {
        lemma_mean_feed_keeps_window(s, inputs.drop_last());
    }
}

/// Feeding samples that all lie in `[lo, hi]` leaves the state inside
/// `[lo, hi]`, if it was there before.
pub proof fn lemma_mean_feed_bounded(s: MeanState, inputs: Seq<int>, lo: int, hi: int)
    requires
        s.valid(),
        s.within(lo, hi),
        forall|i: int| 0 <= i < inputs.len() ==> lo <= #[trigger] inputs[i] <= hi,
    ensures
        s.feed(inputs).valid(),
        s.feed(inputs).within(lo, hi),
    decreases inputs.len(),
{
    if inputs.len() > 0 {
        lemma_mean_feed_bounded(s, inputs.drop_last(), lo, hi);
        lemma_mean_step_bounded(s.feed(inputs.drop_last()), inputs.last(), lo, hi);
    }
}

/// No overshoot: while every sample lies in `[lo, hi]`, so does every output,
/// at every tick. The previous output that the filter may start with has to lie
/// in the interval too; a fresh filter has none.
pub proof fn lemma_mean_outputs_bounded(s: MeanState, inputs: Seq<int>, lo: int, hi: int)
    requires
        s.valid(),
        s.within(lo, hi),
        forall|i: int| 0 <= i < inputs.len() ==> lo <= #[trigger] inputs[i] <= hi,
    ensures
        forall|i: int|
            0 <= i < inputs.len() ==> lo <= #[trigger] s.output_at(inputs, i) <= hi,
{
    assert forall|i: int| 0 <= i < inputs.len() implies lo <= #[trigger] s.output_at(
        inputs,
        i,
    ) <= hi by {
        let seen: Seq<int> = inputs.take(i);
        assert forall|j: int| 0 <= j < seen.len() implies lo <= #[trigger] seen[j] <= hi by {
            assert(seen[j] == inputs[j]);
        }
        lemma_mean_feed_bounded(s, seen, lo, hi);
        lemma_mean_step_bounded(s.feed(seen), inputs[i], lo, hi);
    }
}

/// With a window of one the filter passes every sample through unchanged.
pub proof fn lemma_mean_window_of_one(s: MeanState, v: int)
    requires
        s.num == 1,
    ensures
        s.output(v) == v,
        s.step(v).last == Some(v),
{
}

/// Geometric approach: from a previous output `l` that has `v` on its side
/// toward zero, one more sample of `v` shrinks the distance to `v` by the
/// ratio `(num - 1) / num` or better, and the new output again has `v` on its
/// side toward zero.
pub proof fn lemma_mean_contracts(s: MeanState, l: int, v: int)
    requires
        s.valid(),
        s.last == Some(l),
        toward_zero_of(v, l),
    ensures
        s.num * distance(s.output(v), v) <= (s.num - 1) * distance(l, v),
        distance(s.output(v), v) <= distance(l, v),
        l != v ==> distance(s.output(v), v) < distance(l, v),
        toward_zero_of(v, s.output(v)),
        toward_zero_of(s.output(v), l),
{
    let n: int = s.num;
    let a: int = l * (n - 1) + v;
    let out: int = s.output(v);
    assert(a == v * n + (l - v) * (n - 1)) by (nonlinear_arith)
        requires
            a == l * (n - 1) + v,
    ;
    if 0 <= v <= l {
        assert(a >= v * n && a >= 0 && a <= l * n) by (nonlinear_arith)
            requires
                a == v * n + (l - v) * (n - 1),
                0 <= v <= l,
                n >= 1,
        ;
        lemma_div_toward_zero_bounds(a, n, v, l);
        assert(n * (out - v) <= (n - 1) * (l - v)) by (nonlinear_arith)
            requires
                out == a / n,
                n >= 1,
                a == v * n + (l - v) * (n - 1),
        ;
    } else {
        assert(a <= v * n && a <= 0 && a >= l * n) by (nonlinear_arith)
            requires
                a == v * n + (l - v) * (n - 1),
                l <= v <= 0,
                n >= 1,
        ;
        lemma_div_toward_zero_bounds(a, n, l, v);
        assert(n * (v - out) <= (n - 1) * (v - l)) by (nonlinear_arith)
            requires
                out == -((-a) / n),
                n >= 1,
                a <= 0,
                a == v * n + (l - v) * (n - 1),
        ;
    }
    assert(distance(out, v) <= distance(l, v) && (l != v ==> distance(out, v) < distance(l, v)))
        by (nonlinear_arith)
        requires
            n * distance(out, v) <= (n - 1) * distance(l, v),
            n >= 1,
            distance(out, v) >= 0,
            distance(l, v) >= 0,
    ;
}

/// A state whose previous output has `v` on its side toward zero comes within
/// `d - k` of `v`, or all the way, after `k` samples of `v`, where `d` is the
/// distance it started at.
proof fn lemma_mean_approaches(s: MeanState, l: int, v: int, k: nat)
    requires
        s.valid(),
        s.last == Some(l),
        toward_zero_of(v, l),
    ensures
        s.feed(constant(v, k)).num == s.num,
        s.feed(constant(v, k)).last is Some,
        toward_zero_of(v, s.feed(constant(v, k)).last->0),
        distance(s.feed(constant(v, k)).last->0, v) <= distance(l, v) - k
            || s.feed(constant(v, k)).last == Some(v),
    decreases k,
{
    if k > 0 {
        let before: MeanState = s.feed(constant(v, (k - 1) as nat));
        assert(constant(v, k).drop_last() =~= constant(v, (k - 1) as nat));
        assert(constant(v, k).last() == v);
        lemma_mean_approaches(s, l, v, (k - 1) as nat);
        lemma_mean_contracts(before, before.last->0, v);
    } else {
        assert(constant(v, k).len() == 0);
    }
}

/// Geometric convergence: from a previous output `l` that has `v` on its side
/// toward zero, `k` samples of `v` shrink the distance to `v` to at most
/// `((num - 1) / num)` to the power `k` of what it was. Once that bound is
/// below one the output is `v`.
pub proof fn lemma_mean_geometric(s: MeanState, l: int, v: int, k: nat)
    requires
        s.valid(),
        s.last == Some(l),
        toward_zero_of(v, l),
    ensures
        s.feed(constant(v, k)).last is Some,
        pow(s.num, k) * distance(s.feed(constant(v, k)).last->0, v) <= pow(s.num - 1, k)
            * distance(l, v),
        pow(s.num - 1, k) * distance(l, v) < pow(s.num, k) ==> s.feed(constant(v, k)).last
            == Some(v),
    decreases k,
{
    reveal(pow);
    let n: int = s.num;
    let d0: int = distance(l, v);
    let d2: int = distance(s.feed(constant(v, k)).last->0, v);
    lemma_mean_approaches(s, l, v, k);
    lemma_pow_positive(n, k);
    if k > 0 {
        let before: MeanState = s.feed(constant(v, (k - 1) as nat));
        assert(constant(v, k).drop_last() =~= constant(v, (k - 1) as nat));
        assert(constant(v, k).last() == v);
        lemma_mean_approaches(s, l, v, (k - 1) as nat);
        lemma_mean_geometric(s, l, v, (k - 1) as nat);
        lemma_mean_contracts(before, before.last->0, v);
        lemma_pow_positive(n, (k - 1) as nat);
        let a: int = pow(n, (k - 1) as nat);
        let b: int = pow(n - 1, (k - 1) as nat);
        let d1: int = distance(before.last->0, v);
        assert((n * a) * d2 <= ((n - 1) * b) * d0) by (nonlinear_arith)
            requires
                a > 0,
                n >= 1,
                a * d1 <= b * d0,
                n * d2 <= (n - 1) * d1,
        {
            assert(a * (n * d2) <= a * ((n - 1) * d1));
            assert((n - 1) * (a * d1) <= (n - 1) * (b * d0));
        }
    } else {
        assert(constant(v, k).len() == 0);
        assert(pow(n, 0) == 1 && pow(n - 1, 0) == 1);
    }
    let top: int = pow(n, k);
    assert(top * d2 < top ==> d2 == 0) by (nonlinear_arith)
        requires
            top > 0,
            d2 >= 0,
    ;
}

/// Convergence on a constant stream: from a state that `settles_on` `v`, once
/// `settling_ticks` samples of `v` were taken the previous output is `v`, and
/// so is every output from then on.
pub proof fn lemma_mean_converges(s: MeanState, v: int, k: nat)
    requires
        s.valid(),
        s.settles_on(v),
        k >= s.settling_ticks(v),
    ensures
        s.feed(constant(v, k)).last == Some(v),
        s.feed(constant(v, k)).output(v) == v,
    decreases k,
{
    let end: MeanState = s.feed(constant(v, k));
    lemma_mean_feed_keeps_window(s, constant(v, k));
    if k == 0 {
        assert(constant(v, k).len() == 0);
    } else {
        let before: MeanState = s.feed(constant(v, (k - 1) as nat));
        assert(constant(v, k).drop_last() =~= constant(v, (k - 1) as nat));
        assert(constant(v, k).last() == v);
        assert(end == before.step(v));
        lemma_mean_feed_keeps_window(s, constant(v, (k - 1) as nat));
        match s.last {
            Some(l) => {
                if s.num != 1 {
                    lemma_mean_approaches(s, l, v, k);
                } else {
                    lemma_mean_window_of_one(before, v);
                }
            },
            None => {
                if k > 1 {
                    lemma_mean_converges(s, v, (k - 1) as nat);
                    lemma_mean_settled(before, v);
                } else {
                    assert(constant(v, (k - 1) as nat).len() == 0);
                }
            },
        }
    }
    lemma_mean_settled(end, v);
}

/// A state whose previous output is `v` hands back `v` for a sample of `v`.
proof fn lemma_mean_settled(s: MeanState, v: int)
    requires
        s.valid(),
        s.last == Some(v),
    ensures
        s.output(v) == v,
        s.step(v) == s,
{
    lemma_mean_step_bounded(s, v, v, v);
}

/// Outside the states that settle on `v` the filter never gets there: one
/// more sample of `v` leaves the output short of `v`, on the side of zero, and
/// the state outside those states.
pub proof fn lemma_mean_stalls(s: MeanState, v: int)
    requires
        s.valid(),
        !s.settles_on(v),
    ensures
        s.output(v) != v,
        !s.step(v).settles_on(v),
{
    let l: int = s.last->0;
    let n: int = s.num;
    let a: int = l * (n - 1) + v;
    if v > 0 {
        assert(a < v * n) by (nonlinear_arith)
            requires
                a == l * (n - 1) + v,
                l < v,
                n > 1,
        ;
        if a >= 0 {
            assert(a / n < v) by (nonlinear_arith)
                requires
                    0 <= a < v * n,
                    n > 1,
            ;
        }
    } else {
        assert(a > v * n) by (nonlinear_arith)
            requires
                a == l * (n - 1) + v,
                l > v,
                n > 1,
        ;
        if a < 0 {
            assert((-a) / n < -v) by (nonlinear_arith)
                requires
                    a < 0,
                    a > v * n,
                    n > 1,
            ;
        }
    }
}

} // verus!
