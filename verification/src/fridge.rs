//! The record of a control tick and the stages that work on it: acquisition
//! and clipping, conditioning, temperature mapping, hysteresis control, and
//! the levels for the compressor relay and the status light.

use crate::filter::mean::lemma_mean_step_bounded;
use crate::filter::plausible::lemma_plausible_step;
use crate::filter::{Filter, MeanFilter, MeanState, PlausibleFilter, PlausibleState};
use vstd::prelude::*;

verus! {

/// Lowest value a converter hands out.
pub const ADC_MIN: i32 = 0;

/// Full scale of the converters.
pub const ADC_MAX: i32 = 4096;

/// Implausible samples in a row that a channel turns away.
pub const PLAUSIBLE_FAILS: u32 = 5;

/// Largest plausible jump between two samples of a channel.
pub const PLAUSIBLE_DIFF: i32 = 500;

/// Ticks per toggle of the status light while the compressor rests.
pub const LED_IDLE_DIVISOR: u8 = 10;

/// Last value of the status light's tick counter before it starts over.
pub const LED_COUNTER_LAST: u8 = 0xFE;

/// The record that the stages of one tick share.
#[derive(Clone, Copy, Debug, PartialEq, Eq)]
pub struct Data {
    pub timestamp: u64,
    pub setpoint_adc_raw: i32,
    pub setpoint_adc: i32,
    pub setpoint_mdeg: i32,
    pub current_adc_raw: i32,
    pub current_adc: i32,
    pub current_mdeg: i32,
    pub compressor: bool,
}

impl Data {
    /// The record at start-up: every reading zero, the compressor at rest.
    pub open spec fn initial() -> Data {
        Data {
            timestamp: 0,
            setpoint_adc_raw: 0,
            setpoint_adc: 0,
            setpoint_mdeg: 0,
            current_adc_raw: 0,
            current_adc: 0,
            current_mdeg: 0,
            compressor: false,
        }
    }
}

impl Default for Data {
    fn default() -> (d: Data)
        ensures
            d == Data::initial(),
    {
        Data {
            timestamp: 0,
            setpoint_adc_raw: 0,
            setpoint_adc: 0,
            setpoint_mdeg: 0,
            current_adc_raw: 0,
            current_adc: 0,
            current_mdeg: 0,
            compressor: false,
        }
    }
}

/// Level of a digital output.
#[derive(Clone, Copy, Debug, PartialEq, Eq)]
pub enum Level {
    Low,
    High,
}

/// `value` saturated to `[min, max]`; the lower bound is tested first.
pub open spec fn clip_spec(value: int, min: int, max: int) -> int {
    if value < min {
        min
    } else if value > max {
        max
    } else {
        value
    }
}

/// A converter's unsigned 32-bit sample read as a signed one: the upper half of
/// the range wraps to the negative numbers.
pub open spec fn sample_value(raw: u32) -> int {
    if raw <= i32::MAX {
        raw as int
    } else {
        raw - 0x1_0000_0000
    }
}

/// Acquisition stage: records the two raw samples and their clipped values.
pub struct AdcRead;

impl AdcRead {
    pub fn new() -> AdcRead {
        AdcRead
    }

    /// Saturates `value` to `[min, max]`.
    pub fn clip(value: i32, min: i32, max: i32) -> (r: i32)
        ensures
            r == clip_spec(value as int, min as int, max as int),
            min <= max ==> min <= r <= max,
    {
        if value < min {
            min
        } else if value > max {
            max
        } else {
            value
        }
    }

    /// Reads a converter's sample as a signed number.
    pub fn signed(raw: u32) -> (v: i32)
        ensures
            v == sample_value(raw),
    {
        if raw <= 0x7fff_ffff {
            raw as i32
        } else {
            (raw as i64 - 0x1_0000_0000) as i32
        }
    }

    /// Stores the samples `current` and `setpoint`, as read from the two
    /// converters, and their values clipped to the converters' range.
    pub fn process(&mut self, data: &mut Data, current: u32, setpoint: u32)
        ensures
            *final(data) == (Data {
                current_adc_raw: sample_value(current) as i32,
                current_adc: clip_spec(sample_value(current), ADC_MIN as int, ADC_MAX as int) as i32,
                setpoint_adc_raw: sample_value(setpoint) as i32,
                setpoint_adc: clip_spec(
                    sample_value(setpoint),
                    ADC_MIN as int,
                    ADC_MAX as int,
                ) as i32,
                ..*old(data)
            }),
            ADC_MIN <= final(data).current_adc <= ADC_MAX,
            ADC_MIN <= final(data).setpoint_adc <= ADC_MAX,
    {
        let current: i32 = Self::signed(current);
        data.current_adc_raw = current;
        data.current_adc = Self::clip(current, ADC_MIN, ADC_MAX);
        let setpoint: i32 = Self::signed(setpoint);
        data.setpoint_adc_raw = setpoint;
        data.setpoint_adc = Self::clip(setpoint, ADC_MIN, ADC_MAX);
    }
}

/// Setpoint temperature in milli-degrees for a dial reading: the dial is hard
/// to set, so it selects one of three temperatures.
pub open spec fn setpoint_mdeg(adc: int) -> int {
    if 0 <= adc <= 180 {
        5000
    } else if 181 <= adc <= 660 {
        10000
    } else {
        15000
    }
}

/// Sensor temperature in milli-degrees for a sensor reading; the sensor reads
/// four degrees high.
pub open spec fn current_mdeg(adc: int) -> int {
    adc * 100 - 4000
}

/// Mapping stage for the setpoint dial.
pub struct Setpoint;

impl Default for Setpoint {
    fn default() -> Setpoint {
        Setpoint
    }
}

impl Setpoint {
    /// Maps the conditioned dial reading to the setpoint temperature.
    pub fn process(&mut self, data: &mut Data)
        ensures
            *final(data) == (Data {
                setpoint_mdeg: setpoint_mdeg(old(data).setpoint_adc as int) as i32,
                ..*old(data)
            }),
    {
        let adc: i32 = data.setpoint_adc;
        data.setpoint_mdeg = if 0 <= adc && adc <= 180 {
            5000
        } else if 181 <= adc && adc <= 660 {
            10000
        } else {
            15000
        };
    }
}

/// Mapping stage for the temperature sensor.
pub struct Current;

impl Default for Current {
    fn default() -> Current {
        Current
    }
}

impl Current {
    /// Maps the conditioned sensor reading to the sensor temperature. The
    /// temperature has to fit the record's field, which it does for every
    /// reading within the converter's range.
    pub fn process(&mut self, data: &mut Data)
        requires
            i32::MIN <= current_mdeg(old(data).current_adc as int) <= i32::MAX,
        ensures
            *final(data) == (Data {
                current_mdeg: current_mdeg(old(data).current_adc as int) as i32,
                ..*old(data)
            }),
    {
        data.current_mdeg = (data.current_adc as i64 * 100 - 4000) as i32;
    }
}

/// Abstract state of one conditioned channel: outlier rejection, then the mean.
pub struct ChannelState {
    pub plausible: PlausibleState,
    pub mean: MeanState,
}

impl ChannelState {
    pub open spec fn valid(self) -> bool {
        self.plausible.valid() && self.mean.valid()
    }

    /// The conditioned value for `value`.
    pub open spec fn output(self, value: int) -> int {
        self.mean.output(self.plausible.output(value))
    }

    /// The state after `value` was taken.
    pub open spec fn step(self, value: int) -> ChannelState {
        ChannelState {
            plausible: self.plausible.step(value),
            mean: self.mean.step(self.plausible.output(value)),
        }
    }

    /// What both filters remember lies in `[lo, hi]`.
    pub open spec fn within(self, lo: int, hi: int) -> bool {
        &&& self.mean.within(lo, hi)
        &&& match self.plausible.last {
            Some(x) => lo <= x <= hi,
            None => true,
        }
    }

    /// A channel that has seen no sample yet.
    pub open spec fn fresh(window: int) -> ChannelState {
        ChannelState {
            plausible: PlausibleState {
                num_fails: PLAUSIBLE_FAILS as nat,
                fails: 0,
                diff: PLAUSIBLE_DIFF as int,
                last: None,
            },
            mean: MeanState { last: None, num: window },
        }
    }
}

/// A channel whose memory lies in `[lo, hi]` answers a sample from `[lo, hi]`
/// with a value from `[lo, hi]`, and its memory stays there.
pub proof fn lemma_channel_step_bounded(s: ChannelState, v: int, lo: int, hi: int)
    requires
        s.valid(),
        s.within(lo, hi),
        lo <= v <= hi,
    ensures
        lo <= s.output(v) <= hi,
        s.step(v).valid(),
        s.step(v).within(lo, hi),
{
    lemma_plausible_step(s.plausible, v);
    lemma_mean_step_bounded(s.mean, s.plausible.output(v), lo, hi);
}

/// Abstract state of the conditioning stage.
pub struct AdcFilterState {
    pub setpoint: ChannelState,
    pub current: ChannelState,
}

impl AdcFilterState {
    pub open spec fn valid(self) -> bool {
        self.setpoint.valid() && self.current.valid()
    }

    pub open spec fn step(self, setpoint: int, current: int) -> AdcFilterState {
        AdcFilterState { setpoint: self.setpoint.step(setpoint), current: self.current.step(current) }
    }

    /// What the filters of both channels remember lies within the converters'
    /// range.
    pub open spec fn in_range(self) -> bool {
        &&& self.setpoint.within(ADC_MIN as int, ADC_MAX as int)
        &&& self.current.within(ADC_MIN as int, ADC_MAX as int)
    }
}

/// Conditioning stage: each channel's clipped sample passes the outlier
/// rejection and then the mean filter.
pub struct AdcFilter {
    current_filter_plausible: PlausibleFilter,
    setpoint_filter_plausible: PlausibleFilter,
    current_filter: MeanFilter,
    setpoint_filter: MeanFilter,
}

impl View for AdcFilter {
    type V = AdcFilterState;

    closed spec fn view(&self) -> AdcFilterState {
        AdcFilterState {
            setpoint: ChannelState {
                plausible: self.setpoint_filter_plausible@,
                mean: self.setpoint_filter@,
            },
            current: ChannelState {
                plausible: self.current_filter_plausible@,
                mean: self.current_filter@,
            },
        }
    }
}

impl AdcFilter {
    /// Fresh filters with mean windows of `setpoint` and `current` samples.
    pub fn new(setpoint: i32, current: i32) -> (f: AdcFilter)
        requires
            setpoint >= 1,
            current >= 1,
        ensures
            f@ == (AdcFilterState {
                setpoint: ChannelState::fresh(setpoint as int),
                current: ChannelState::fresh(current as int),
            }),
            f@.valid(),
    {
        AdcFilter {
            current_filter_plausible: PlausibleFilter::new(PLAUSIBLE_FAILS, PLAUSIBLE_DIFF),
            setpoint_filter_plausible: PlausibleFilter::new(PLAUSIBLE_FAILS, PLAUSIBLE_DIFF),
            current_filter: MeanFilter::new(current),
            setpoint_filter: MeanFilter::new(setpoint),
        }
    }

    /// Replaces the two clipped samples in the record by their conditioned
    /// values.
    pub fn process(&mut self, data: &mut Data)
        ensures
            old(self)@.valid(),
            final(self)@.valid(),
            final(self)@ == old(self)@.step(
                old(data).setpoint_adc as int,
                old(data).current_adc as int,
            ),
            *final(data) == (Data {
                setpoint_adc: old(self)@.setpoint.output(old(data).setpoint_adc as int) as i32,
                current_adc: old(self)@.current.output(old(data).current_adc as int) as i32,
                ..*old(data)
            }),
            final(data).setpoint_adc == old(self)@.setpoint.output(old(data).setpoint_adc as int),
            final(data).current_adc == old(self)@.current.output(old(data).current_adc as int),
    {
        data.setpoint_adc = self.setpoint_filter_plausible.filter(data.setpoint_adc);
        data.setpoint_adc = self.setpoint_filter.filter(data.setpoint_adc);
        data.current_adc = self.current_filter_plausible.filter(data.current_adc);
        data.current_adc = self.current_filter.filter(data.current_adc);
    }
}

/// The control law: at or above `setpoint + h` the compressor runs, else at
/// or below `setpoint - h` it rests, and in between it does what it did.
pub open spec fn decide(h: int, setpoint: int, current: int, running: bool) -> bool {
    if current >= setpoint + h {
        true
    } else if current <= setpoint - h {
        false
    } else {
        running
    }
}

/// The compressor's state after the control law saw each of `currents` in
/// turn, against one setpoint.
pub open spec fn decide_all(h: int, setpoint: int, currents: Seq<int>, running: bool) -> bool
    decreases currents.len(),
{
    if currents.len() == 0 {
        running
    } else {
        decide(h, setpoint, currents.last(), decide_all(h, setpoint, currents.drop_last(), running))
    }
}

/// No chatter: while the temperature stays strictly inside the dead band, the
/// compressor keeps its state, however the temperature moves in there.
pub proof fn lemma_dead_band_holds(h: int, setpoint: int, currents: Seq<int>, running: bool)
    requires
        forall|i: int|
            0 <= i < currents.len() ==> setpoint - h < #[trigger] currents[i] < setpoint + h,
    ensures
        decide_all(h, setpoint, currents, running) == running,
    decreases currents.len(),
{
    if currents.len() > 0 {
        lemma_dead_band_holds(h, setpoint, currents.drop_last(), running);
    }
}

/// A compressor at rest starts exactly when the temperature first reaches
/// `setpoint + h`: as long as the temperature stays above the lower threshold,
/// the compressor runs after `currents` if and only if one of them reached the
/// upper threshold.
pub proof fn lemma_starts_at_first_reach(h: int, setpoint: int, currents: Seq<int>)
    requires
        forall|i: int| 0 <= i < currents.len() ==> #[trigger] currents[i] > setpoint - h,
    ensures
        decide_all(h, setpoint, currents, false) <==> exists|i: int|
            0 <= i < currents.len() && #[trigger] currents[i] >= setpoint + h,
    decreases currents.len(),
{
    if currents.len() > 0 {
        let before: Seq<int> = currents.drop_last();
        let last: int = currents.len() - 1;
        assert forall|i: int| 0 <= i < before.len() implies #[trigger] before[i] > setpoint - h by {
            assert(before[i] == currents[i]);
        }
        lemma_starts_at_first_reach(h, setpoint, before);
        if currents[last] >= setpoint + h {
        } else if decide_all(h, setpoint, before, false) {
            let i: int = choose|i: int| 0 <= i < before.len() && #[trigger] before[i] >= setpoint + h;
            assert(currents[i] >= setpoint + h);
        } else {
            assert forall|i: int| 0 <= i < currents.len() implies !(#[trigger] currents[i]
                >= setpoint + h) by {
                if i < last {
                    assert(before[i] == currents[i]);
                }
            }
        }
    }
}

/// With a dead band that is not empty the two thresholds cannot both be met,
/// so the order in which the control law tests them does not matter.
pub proof fn lemma_thresholds_exclusive(h: int, setpoint: int, current: int)
    requires
        h > 0,
    ensures
        !(current >= setpoint + h && current <= setpoint - h),
{
}

/// Control stage: two-state hysteresis control of the compressor.
pub struct Control {
    hysteresis_mdeg: i32,
}

impl Control {
    #[verifier::type_invariant]
    spec fn well_formed(self) -> bool {
        self.hysteresis_mdeg >= 0
    }

    /// The half width of the dead band, in milli-degrees.
    pub closed spec fn hysteresis(&self) -> int {
        self.hysteresis_mdeg as int
    }

    /// A controller with a dead band of `hysteresis` milli-degrees to each side
    /// of the setpoint.
    pub fn new(hysteresis: i32) -> (c: Control)
        requires
            hysteresis >= 0,
        ensures
            c.hysteresis() == hysteresis,
    {
        Control { hysteresis_mdeg: hysteresis }
    }

    /// Decides from the two temperatures in the record whether the compressor
    /// runs; the record's flag is the memory of the decision before.
    pub fn process(&mut self, data: &mut Data)
        ensures
            old(self).hysteresis() >= 0,
            final(self).hysteresis() == old(self).hysteresis(),
            *final(data) == (Data {
                compressor: decide(
                    old(self).hysteresis(),
                    old(data).setpoint_mdeg as int,
                    old(data).current_mdeg as int,
                    old(data).compressor,
                ),
                ..*old(data)
            }),
    {
        proof {
            use_type_invariant(&*self);
        }
        let current: i64 = data.current_mdeg as i64;
        let setpoint: i64 = data.setpoint_mdeg as i64;
        let band: i64 = self.hysteresis_mdeg as i64;
        if current >= setpoint + band {
            data.compressor = true;
        } else if current <= setpoint - band {
            data.compressor = false;
        }
    }
}

/// Compressor stage: the relay mirrors the control decision.
pub struct Compressor;

impl Compressor {
    pub fn new() -> Compressor {
        Compressor
    }

    /// The level to drive the relay with: high to cool, low to rest.
    pub fn process(&mut self, data: &mut Data) -> (level: Level)
        ensures
            *final(data) == *old(data),
            level == if old(data).compressor {
                Level::High
            } else {
                Level::Low
            },
    {
        if data.compressor {
            Level::High
        } else {
            Level::Low
        }
    }
}

/// Abstract state of the status light.
pub struct LedState {
    /// The light is lit.
    pub on: bool,
    /// Ticks counted since the counter last started over.
    pub run: nat,
}

impl LedState {
    pub open spec fn valid(self) -> bool {
        self.run <= LED_COUNTER_LAST
    }

    /// Ticks per toggle: one while cooling, more while at rest.
    pub open spec fn divisor(cooling: bool) -> nat {
        if cooling {
            1
        } else {
            LED_IDLE_DIVISOR as nat
        }
    }

    /// The light changes on this tick.
    pub open spec fn toggles(self, cooling: bool) -> bool {
        self.run % Self::divisor(cooling) == 0
    }

    /// The level to drive the light with on this tick, if it changes.
    pub open spec fn action(self, cooling: bool) -> Option<Level> {
        if self.toggles(cooling) {
            Some(
                if self.on {
                    Level::Low
                } else {
                    Level::High
                },
            )
        } else {
            None
        }
    }

    /// The state after this tick: the light toggled where it changes, and the
    /// counter one further, starting over after its last value.
    pub open spec fn step(self, cooling: bool) -> LedState {
        LedState {
            on: if self.toggles(cooling) {
                !self.on
            } else {
                self.on
            },
            run: if self.run == LED_COUNTER_LAST {
                0
            } else {
                self.run + 1
            },
        }
    }
}

/// Status light stage: blinks fast while the compressor runs, slowly while it
/// rests.
pub struct StateLed {
    on: bool,
    run: u8,
}

impl View for StateLed {
    type V = LedState;

    closed spec fn view(&self) -> LedState {
        LedState { on: self.on, run: self.run as nat }
    }
}

impl StateLed {
    #[verifier::type_invariant]
    spec fn well_formed(self) -> bool {
        self.run <= LED_COUNTER_LAST
    }

    /// A dark light with its counter at zero.
    pub fn new() -> (l: StateLed)
        ensures
            l@ == (LedState { on: false, run: 0 }),
    {
        StateLed { on: false, run: 0 }
    }

    /// Counts the tick and says how to drive the light, if it changes.
    pub fn process(&mut self, data: &mut Data) -> (action: Option<Level>)
        ensures
            old(self)@.valid(),
            final(self)@.valid(),
            final(self)@ == old(self)@.step(old(data).compressor),
            action == old(self)@.action(old(data).compressor),
            *final(data) == *old(data),
    {
        proof {
            use_type_invariant(&*self);
        }
        let rate: u8 = if data.compressor {
            1
        } else {
            LED_IDLE_DIVISOR
        };
        let action: Option<Level> = if self.run % rate == 0 {
            if self.on {
                self.on = false;
                Some(Level::Low)
            } else {
                self.on = true;
                Some(Level::High)
            }
        } else {
            None
        };
        self.run = if self.run == LED_COUNTER_LAST {
            0
        } else {
            self.run + 1
        };
        action
    }
}

/// A consumer of the record at the end of each tick.
pub trait Tracer {
    fn trace(&mut self, data: &mut Data);
}

/// A temperature taken apart for display.
#[derive(Clone, Copy, Debug, PartialEq, Eq)]
pub struct Reading {
    /// The temperature is below zero.
    pub negative: bool,
    /// Whole degrees of the magnitude.
    pub degrees: u32,
    /// Thousandths of a degree of the magnitude, below 1000.
    pub millis: u32,
}

impl Reading {
    /// The temperature in milli-degrees that the parts stand for.
    pub open spec fn mdeg(self) -> int {
        if self.negative {
            -(self.degrees * 1000 + self.millis)
        } else {
            self.degrees * 1000 + self.millis
        }
    }

    /// Takes a temperature in milli-degrees apart into sign, whole degrees and
    /// thousandths.
    pub fn of_mdeg(mdeg: i32) -> (r: Reading)
        ensures
            r.mdeg() == mdeg,
            r.negative == (mdeg < 0),
            r.millis < 1000,
    {
        let magnitude: i64 = if mdeg < 0 {
            -(mdeg as i64)
        } else {
            mdeg as i64
        };
        Reading {
            negative: mdeg < 0,
            degrees: (magnitude / 1000) as u32,
            millis: (magnitude % 1000) as u32,
        }
    }
}

/// What the trace shows of a record: the compressor's state and the two
/// temperatures.
#[derive(Clone, Copy, Debug, PartialEq, Eq)]
pub struct TraceLine {
    pub cooling: bool,
    pub setpoint: Reading,
    pub current: Reading,
}

impl TraceLine {
    /// The parts of the trace line for `data`.
    pub fn of_data(data: &Data) -> (line: TraceLine)
        ensures
            line.cooling == data.compressor,
            line.setpoint.mdeg() == data.setpoint_mdeg,
            line.setpoint.negative == (data.setpoint_mdeg < 0),
            line.setpoint.millis < 1000,
            line.current.mdeg() == data.current_mdeg,
            line.current.negative == (data.current_mdeg < 0),
            line.current.millis < 1000,
    {
        TraceLine {
            cooling: data.compressor,
            setpoint: Reading::of_mdeg(data.setpoint_mdeg),
            current: Reading::of_mdeg(data.current_mdeg),
        }
    }
}

} // verus!
