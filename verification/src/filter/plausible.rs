//! The outlier rejector, its model, and what holds of it: the failure count
//! stays within the tolerance, and a jump that lasts is believed.

use crate::filter::{distance, Filter};
use vstd::prelude::*;

verus! {

/// Abstract state of a [`PlausibleFilter`].
pub struct PlausibleState {
    /// How many implausible samples in a row are turned away.
    pub num_fails: nat,
    /// How many implausible samples in a row were turned away so far.
    pub fails: nat,
    /// The largest jump from the last accepted sample that counts as plausible.
    pub diff: int,
    /// The last accepted sample, if any.
    pub last: Option<int>,
}

impl PlausibleState {
    /// The failure count never exceeds the tolerance, and is zero while no
    /// sample was accepted yet.
    pub open spec fn valid(self) -> bool {
        &&& self.fails <= self.num_fails
        &&& self.last is None ==> self.fails == 0
    }

    /// `value` is no further than `diff` from the last accepted sample. With no
    /// accepted sample yet, every value is plausible.
    pub open spec fn plausible(self, value: int) -> bool {
        match self.last {
            Some(x) => distance(x, value) <= self.diff,
            None => true,
        }
    }

    /// `value` is taken over: it is plausible, or the tolerance is used up, so
    /// that turning it away would make one failure too many.
    pub open spec fn accepts(self, value: int) -> bool {
        self.plausible(value) || self.fails + 1 > self.num_fails
    }

    /// The value handed back for `value`: the sample where it is accepted,
    /// else the last accepted sample once more.
    pub open spec fn output(self, value: int) -> int {
        if self.accepts(value) {
            value
        } else {
            self.last->0
        }
    }

    /// The state after `value` was taken: an accepted sample becomes the last
    /// accepted one and clears the failure count; a rejected one adds a failure.
    pub open spec fn step(self, value: int) -> PlausibleState {
        if self.accepts(value) {
            PlausibleState { fails: 0, last: Some(value), ..self }
        } else {
            PlausibleState { fails: self.fails + 1, ..self }
        }
    }

    /// The state after all of `inputs` were taken, first to last.
    pub open spec fn feed(self, inputs: Seq<int>) -> PlausibleState
        decreases inputs.len(),
    {
        if inputs.len() == 0 {
            self
        } else {
            self.feed(inputs.drop_last()).step(inputs.last())
        }
    }

    /// The value handed back for `inputs[i]` when `inputs` are taken in order.
    pub open spec fn output_at(self, inputs: Seq<int>, i: int) -> int {
        self.feed(inputs.take(i)).output(inputs[i])
    }

    /// `inputs[i]` is accepted when `inputs` are taken in order.
    pub open spec fn accepted_at(self, inputs: Seq<int>, i: int) -> bool {
        self.feed(inputs.take(i)).accepts(inputs[i])
    }
}

/// Outlier rejection for a converter that now and then hands out a wild value:
/// a sample that jumps further than `diff` from the last accepted one is
/// answered with the last accepted one, until more than `num_fails` of them
/// came in a row; then the jump is believed.
pub struct PlausibleFilter {
    num_fails: u32,
    fails: u32,
    diff: i32,
    last: Option<i32>,
}

impl View for PlausibleFilter {
    type V = PlausibleState;

    closed spec fn view(&self) -> PlausibleState {
        PlausibleState {
            num_fails: self.num_fails as nat,
            fails: self.fails as nat,
            diff: self.diff as int,
            last: match self.last {
                Some(x) => Some(x as int),
                None => None,
            },
        }
    }
}

impl PlausibleFilter {
    #[verifier::type_invariant]
    spec fn well_formed(self) -> bool {
        &&& self.fails <= self.num_fails
        &&& self.last is None ==> self.fails == 0
    }

    /// A fresh filter that turns away up to `n` samples in a row that jump
    /// further than `d`.
    pub fn new(n: u32, d: i32) -> (f: PlausibleFilter)
        ensures
            f@ == (PlausibleState { num_fails: n as nat, fails: 0, diff: d as int, last: None }),
            f@.valid(),
    {
        PlausibleFilter { num_fails: n, fails: 0, diff: d, last: None }
    }
}

impl Filter for PlausibleFilter {
    fn filter(&mut self, value: i32) -> (out: i32)
        ensures
            old(self)@.valid(),
            final(self)@.valid(),
            final(self)@ == old(self)@.step(value as int),
            out == old(self)@.output(value as int),
    {
        proof {
            use_type_invariant(&*self);
        }
        match self.last {
            Some(x) => {
                let gap: i64 = if x >= value {
                    x as i64 - value as i64
                } else {
                    value as i64 - x as i64
                };
                if gap <= self.diff as i64 || self.fails >= self.num_fails {
                    self.fails = 0;
                    self.last = Some(value);
                    value
                } else {
                    self.fails = self.fails + 1;
                    x
                }
            },
            None => {
                self.last = Some(value);
                value
            },
        }
    }
}

/// Every output is the sample itself or the last accepted sample, and the
/// state stays valid.
pub proof fn lemma_plausible_step(s: PlausibleState, v: int)
    requires
        s.valid(),
    ensures
        s.step(v).valid(),
        s.step(v).last == Some(s.output(v)),
        s.output(v) == v || s.last == Some(s.output(v)),
        s.step(v).num_fails == s.num_fails,
        s.step(v).diff == s.diff,
{
}

/// The filter cannot wedge: of any `num_fails + 1` samples in a row at least
/// one is accepted, whatever they hold.
pub proof fn lemma_plausible_cannot_wedge(s: PlausibleState, inputs: Seq<int>)
    requires
        s.valid(),
        inputs.len() == s.num_fails + 1,
    ensures
        exists|i: int| 0 <= i < inputs.len() && #[trigger] s.accepted_at(inputs, i),
{
    if forall|i: int| 0 <= i < inputs.len() ==> !#[trigger] s.accepted_at(inputs, i) {
        lemma_plausible_rejections_count(s, inputs, s.num_fails as int);
        assert(!s.accepted_at(inputs, s.num_fails as int));
    }
}

/// While every sample is rejected, each adds one to the failure count and the
/// last accepted sample stays.
proof fn lemma_plausible_rejections_count(s: PlausibleState, inputs: Seq<int>, k: int)
    requires
        0 <= k <= inputs.len(),
        forall|i: int| 0 <= i < k ==> !#[trigger] s.accepted_at(inputs, i),
    ensures
        s.feed(inputs.take(k)) == (PlausibleState { fails: (s.fails + k) as nat, ..s }),
    decreases k,
{
    if k > 0 {
        lemma_plausible_rejections_count(s, inputs, k - 1);
        assert(inputs.take(k).drop_last() =~= inputs.take(k - 1));
        assert(inputs.take(k).last() == inputs[k - 1]);
        assert(!s.accepted_at(inputs, k - 1));
    } else {
        assert(inputs.take(k).len() == 0);
    }
}

/// A jump that lasts is believed after the tolerance is used up, and not
/// before: when the failure count is clear and `num_fails + 1` samples in a row
/// all jump further than `diff` from the last accepted sample `x`, the first
/// `num_fails` of them are answered with `x` and the last one is accepted.
pub proof fn lemma_plausible_rejects_then_believes(s: PlausibleState, x: int, inputs: Seq<int>)
    requires
        s.last == Some(x),
        s.fails == 0,
        inputs.len() == s.num_fails + 1,
        forall|i: int| 0 <= i < inputs.len() ==> distance(x, #[trigger] inputs[i]) > s.diff,
    ensures
        forall|i: int| 0 <= i < s.num_fails ==> #[trigger] s.output_at(inputs, i) == x,
        s.output_at(inputs, s.num_fails as int) == inputs[s.num_fails as int],
        s.feed(inputs) == (PlausibleState { last: Some(inputs[s.num_fails as int]), ..s }),
{
    let n: int = s.num_fails as int;
    assert forall|i: int| 0 <= i <= n implies s.feed(inputs.take(i)) == (PlausibleState {
        fails: i as nat,
        ..s
    }) by {
        lemma_plausible_all_rejected(s, x, inputs, i);
    }
    assert(inputs.drop_last() =~= inputs.take(n));
    assert(inputs.last() == inputs[n]);
}

/// The first `k` of such samples, `k` within the tolerance, are all rejected.
proof fn lemma_plausible_all_rejected(s: PlausibleState, x: int, inputs: Seq<int>, k: int)
    requires
        s.last == Some(x),
        s.fails == 0,
        0 <= k <= s.num_fails,
        k <= inputs.len(),
        forall|i: int| 0 <= i < inputs.len() ==> distance(x, #[trigger] inputs[i]) > s.diff,
    ensures
        s.feed(inputs.take(k)) == (PlausibleState { fails: k as nat, ..s }),
    decreases k,
{
    if k > 0 {
        lemma_plausible_all_rejected(s, x, inputs, k - 1);
        assert(inputs.take(k).drop_last() =~= inputs.take(k - 1));
        assert(inputs.take(k).last() == inputs[k - 1]);
    } else {
        assert(inputs.take(k).len() == 0);
    }
}

} // verus!
