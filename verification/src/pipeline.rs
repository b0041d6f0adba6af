//! One control tick from end to end: the stages in their fixed order over one
//! shared record, with the state they keep between ticks.

use crate::fridge::{
    clip_spec, current_mdeg, decide, lemma_channel_step_bounded, sample_value, setpoint_mdeg,
};
use crate::fridge::{AdcFilter, AdcFilterState, AdcRead, ChannelState, Compressor, Control};
use crate::fridge::{Current, Data, LedState, Level, Setpoint, StateLed};
use crate::fridge::{ADC_MAX, ADC_MIN};
use vstd::prelude::*;

verus! {

/// Window of the mean filter on the setpoint channel.
pub const SETPOINT_WINDOW: i32 = 5;

/// Window of the mean filter on the temperature channel.
pub const CURRENT_WINDOW: i32 = 10;

/// Half width of the dead band round the setpoint, in milli-degrees.
pub const HYSTERESIS_MDEG: i32 = 1000;

/// What one tick asks of the digital outputs.
#[derive(Clone, Copy, Debug, PartialEq, Eq)]
pub struct Outputs {
    /// The level for the compressor relay.
    pub compressor: Level,
    /// The level for the status light, where it changes.
    pub led: Option<Level>,
}

/// Abstract state of the pipeline between two ticks. The compressor's state is
/// not part of it: it is kept in the record.
pub struct PipelineState {
    pub filter: AdcFilterState,
    pub hysteresis: int,
    pub led: LedState,
}

impl PipelineState {
    pub open spec fn valid(self) -> bool {
        &&& self.filter.valid()
        &&& self.filter.in_range()
        &&& self.hysteresis >= 0
        &&& self.led.valid()
    }

    /// The pipeline at start-up.
    pub open spec fn initial() -> PipelineState {
        PipelineState {
            filter: AdcFilterState {
                setpoint: ChannelState::fresh(SETPOINT_WINDOW as int),
                current: ChannelState::fresh(CURRENT_WINDOW as int),
            },
            hysteresis: HYSTERESIS_MDEG as int,
            led: LedState { on: false, run: 0 },
        }
    }

    /// The clipped value of a sample.
    pub open spec fn clipped(raw: u32) -> int {
        clip_spec(sample_value(raw), ADC_MIN as int, ADC_MAX as int)
    }

    /// The record after a tick with the samples `current` and `setpoint`:
    /// raw and conditioned readings, the two temperatures mapped from the
    /// conditioned readings, and the control decision taken from them and from
    /// the compressor's state in `data`.
    pub open spec fn record(self, data: Data, current: u32, setpoint: u32) -> Data {
        let setpoint_adc: int = self.filter.setpoint.output(Self::clipped(setpoint));
        let current_adc: int = self.filter.current.output(Self::clipped(current));
        Data {
            timestamp: data.timestamp,
            setpoint_adc_raw: sample_value(setpoint) as i32,
            setpoint_adc: setpoint_adc as i32,
            setpoint_mdeg: setpoint_mdeg(setpoint_adc) as i32,
            current_adc_raw: sample_value(current) as i32,
            current_adc: current_adc as i32,
            current_mdeg: current_mdeg(current_adc) as i32,
            compressor: decide(
                self.hysteresis,
                setpoint_mdeg(setpoint_adc),
                current_mdeg(current_adc),
                data.compressor,
            ),
        }
    }

    /// The pipeline's state after that tick.
    pub open spec fn step(self, data: Data, current: u32, setpoint: u32) -> PipelineState {
        PipelineState {
            filter: self.filter.step(Self::clipped(setpoint), Self::clipped(current)),
            hysteresis: self.hysteresis,
            led: self.led.step(self.record(data, current, setpoint).compressor),
        }
    }

    /// What that tick asks of the digital outputs.
    pub open spec fn outputs(self, data: Data, current: u32, setpoint: u32) -> Outputs {
        let cooling: bool = self.record(data, current, setpoint).compressor;
        Outputs {
            compressor: if cooling {
                Level::High
            } else {
                Level::Low
            },
            led: self.led.action(cooling),
        }
    }
}

/// A tick of a valid pipeline leaves the pipeline valid, whatever the samples
/// hold, and its record in range: both conditioned readings within the
/// converters' range, the setpoint one of the three dial temperatures, and the
/// sensor temperature the one mapped from its conditioned reading.
pub proof fn lemma_tick_in_range(s: PipelineState, data: Data, current: u32, setpoint: u32)
    requires
        s.valid(),
    ensures
        s.step(data, current, setpoint).valid(),
        ADC_MIN <= s.record(data, current, setpoint).setpoint_adc <= ADC_MAX,
        ADC_MIN <= s.record(data, current, setpoint).current_adc <= ADC_MAX,
        s.record(data, current, setpoint).setpoint_mdeg == setpoint_mdeg(
            s.record(data, current, setpoint).setpoint_adc as int,
        ),
        s.record(data, current, setpoint).current_mdeg == current_mdeg(
            s.record(data, current, setpoint).current_adc as int,
        ),
        s.record(data, current, setpoint).compressor == decide(
            s.hysteresis,
            s.record(data, current, setpoint).setpoint_mdeg as int,
            s.record(data, current, setpoint).current_mdeg as int,
            data.compressor,
        ),
{
    lemma_channel_step_bounded(
        s.filter.setpoint,
        PipelineState::clipped(setpoint),
        ADC_MIN as int,
        ADC_MAX as int,
    );
    lemma_channel_step_bounded(
        s.filter.current,
        PipelineState::clipped(current),
        ADC_MIN as int,
        ADC_MAX as int,
    );
}

/// The stages of a tick in their fixed order, with the state they keep from
/// tick to tick.
pub struct Pipeline {
    adc_input: AdcRead,
    adc_filter: AdcFilter,
    setpoint: Setpoint,
    current: Current,
    control: Control,
    compressor: Compressor,
    state_led: StateLed,
}

impl View for Pipeline {
    type V = PipelineState;

    closed spec fn view(&self) -> PipelineState {
        PipelineState {
            filter: self.adc_filter@,
            hysteresis: self.control.hysteresis(),
            led: self.state_led@,
        }
    }
}

impl Pipeline {
    /// The pipeline at start-up, with the filter windows, the dead band and
    /// the blink rate that the thermostat is built with.
    pub fn new() -> (p: Pipeline)
        ensures
            p@ == PipelineState::initial(),
            p@.valid(),
    {
        Pipeline {
            adc_input: AdcRead::new(),
            adc_filter: AdcFilter::new(SETPOINT_WINDOW, CURRENT_WINDOW),
            setpoint: Setpoint::default(),
            current: Current::default(),
            control: Control::new(HYSTERESIS_MDEG),
            compressor: Compressor::new(),
            state_led: StateLed::new(),
        }
    }

    /// Runs one tick on the samples `current` and `setpoint`, as read from the
    /// two converters: acquisition, conditioning, mapping, control, and the
    /// levels for compressor and status light. `data` carries the compressor's
    /// state from the tick before and holds this tick's record afterwards.
    pub fn tick(&mut self, data: &mut Data, current: u32, setpoint: u32) -> (out: Outputs)
        requires
            old(self)@.valid(),
        ensures
            final(self)@.valid(),
            final(self)@ == old(self)@.step(*old(data), current, setpoint),
            *final(data) == old(self)@.record(*old(data), current, setpoint),
            out == old(self)@.outputs(*old(data), current, setpoint),
    {
        proof {
            lemma_tick_in_range(self@, *data, current, setpoint);
        }
        self.adc_input.process(data, current, setpoint);
        self.adc_filter.process(data);
        self.setpoint.process(data);
        self.current.process(data);
        self.control.process(data);
        let compressor: Level = self.compressor.process(data);
        let led: Option<Level> = self.state_led.process(data);
        Outputs { compressor, led }
    }
}

} // verus!
