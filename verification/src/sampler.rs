//! Smoothing of the two converter channels where samples arrive one at a time:
//! a running mean per channel, and the rule that says what follows a sample.

use crate::filter::mean::lemma_mean_step_bounded;
use crate::filter::MeanState;
use vstd::prelude::*;

verus! {

/// Window of the running mean.
pub const MEAN_WINDOW: i32 = 20;

/// Channel of the setpoint dial.
pub const SETPOINT_CHANNEL: usize = 0;

/// Channel of the temperature sensor.
pub const CURRENT_CHANNEL: usize = 1;

/// Running mean over integers with a fixed window: each new sample weighs one
/// part in twenty against the mean so far.
pub struct FloatMean(Option<i32>);

impl View for FloatMean {
    type V = MeanState;

    closed spec fn view(&self) -> MeanState {
        MeanState {
            last: match self.0 {
                Some(v) => Some(v as int),
                None => None,
            },
            num: MEAN_WINDOW as int,
        }
    }
}

impl Default for FloatMean {
    fn default() -> (m: FloatMean)
        ensures
            m@ == (MeanState { last: None, num: MEAN_WINDOW as int }),
    {
        FloatMean(None)
    }
}

impl FloatMean {
    /// The mean as a plain number: zero while no sample was added.
    pub open spec fn value_of(s: MeanState) -> int {
        match s.last {
            Some(v) => v,
            None => 0,
        }
    }

    /// Adds a sample: the first one becomes the mean, each later one moves it.
    pub fn add(&mut self, other: i32)
        ensures
            final(self)@ == old(self)@.step(other as int),
            final(self)@.num == MEAN_WINDOW,
    {
        match self.0 {
            Some(v) => {
                proof {
                    let lo: int = if v <= other { v as int } else { other as int };
                    let hi: int = if v <= other { other as int } else { v as int };
                    lemma_mean_step_bounded(self@, other as int, lo, hi);
                }
                let a: i64 = v as i64 * (MEAN_WINDOW - 1) as i64;
                let b: i64 = a + other as i64;
                self.0 = Some((b / MEAN_WINDOW as i64) as i32);
            },
            None => {
                self.0 = Some(other);
            },
        }
    }

    /// The mean so far, or zero while no sample was added.
    pub fn value(&self) -> (v: i32)
        ensures
            v == Self::value_of(self@),
    {
        match self.0 {
            Some(v) => v,
            None => 0,
        }
    }
}

/// What is to be done after a sample arrived.
#[derive(Clone, Copy, Debug, PartialEq, Eq)]
pub enum SamplerAction {
    /// Ask the converter for a sample of this channel.
    Sample(usize),
    /// Both channels were read: report the two means.
    Report { setpoint: i32, current: i32 },
}

/// Abstract state of a [`Sampler`].
pub struct SamplerState {
    pub setpoint: MeanState,
    pub current: MeanState,
}

impl SamplerState {
    /// The state after a sample `value` of `channel` arrived: a sample of the
    /// setpoint channel moves the setpoint's mean, any other the sensor's.
    pub open spec fn step(self, channel: usize, value: int) -> SamplerState {
        if channel == SETPOINT_CHANNEL {
            SamplerState { setpoint: self.setpoint.step(value), current: self.current }
        } else {
            SamplerState { setpoint: self.setpoint, current: self.current.step(value) }
        }
    }

    /// What follows that sample: after the setpoint the sensor is asked for,
    /// after the sensor both means are reported.
    pub open spec fn action(self, channel: usize, value: int) -> SamplerAction {
        if channel == SETPOINT_CHANNEL {
            SamplerAction::Sample(CURRENT_CHANNEL)
        } else {
            SamplerAction::Report {
                setpoint: FloatMean::value_of(self.setpoint) as i32,
                current: FloatMean::value_of(self.current.step(value)) as i32,
            }
        }
    }
}

/// The means of both channels, fed by samples that arrive one by one.
pub struct Sampler {
    setpoint: FloatMean,
    current: FloatMean,
}

impl View for Sampler {
    type V = SamplerState;

    closed spec fn view(&self) -> SamplerState {
        SamplerState { setpoint: self.setpoint@, current: self.current@ }
    }
}

impl Sampler {
    /// A sampler that has seen no sample.
    pub fn new() -> (s: Sampler)
        ensures
            s@ == (SamplerState {
                setpoint: MeanState { last: None, num: MEAN_WINDOW as int },
                current: MeanState { last: None, num: MEAN_WINDOW as int },
            }),
    {
        Sampler { setpoint: FloatMean::default(), current: FloatMean::default() }
    }

    /// Takes the sample `value` of `channel` and says what follows.
    pub fn on_sample(&mut self, channel: usize, value: i32) -> (action: SamplerAction)
        ensures
            final(self)@ == old(self)@.step(channel, value as int),
            action == old(self)@.action(channel, value as int),
    {
        if channel == SETPOINT_CHANNEL {
            self.setpoint.add(value);
            SamplerAction::Sample(CURRENT_CHANNEL)
        } else {
            self.current.add(value);
            SamplerAction::Report { setpoint: self.setpoint.value(), current: self.current.value() }
        }
    }
}

} // verus!
