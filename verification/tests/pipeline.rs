use fridge::fridge::{Data, Level, Tracer};
use fridge::pipeline::{Outputs, Pipeline};
use fridge::sampler::{FloatMean, Sampler, SamplerAction};

#[test]
fn first_tick_fills_the_whole_record() {
    let mut p = Pipeline::new();
    let mut d = Data::default();
    let out = p.tick(&mut d, 50, 400);
    assert_eq!(
        d,
        Data {
            timestamp: 0,
            setpoint_adc_raw: 400,
            setpoint_adc: 400,
            setpoint_mdeg: 10000,
            current_adc_raw: 50,
            current_adc: 50,
            current_mdeg: 1000,
            compressor: false,
        }
    );
    assert_eq!(out, Outputs { compressor: Level::Low, led: Some(Level::High) });
}

#[test]
fn ramp_switches_the_compressor_on_once_at_the_threshold() {
    let mut p = Pipeline::new();
    let mut d = Data::default();
    let mut switched_at = Vec::new();
    let mut was_cooling = false;
    for i in 0..=150u32 {
        let out = p.tick(&mut d, 50 + i, 400);
        assert_eq!(d.setpoint_adc, 400);
        assert_eq!(d.setpoint_mdeg, 10000);
        assert_eq!(d.current_adc_raw, 50 + i as i32);
        assert_eq!(d.current_mdeg, d.current_adc * 100 - 4000);
        assert_eq!(d.compressor, d.current_mdeg >= 11000);
        assert_eq!(out.compressor, if d.compressor { Level::High } else { Level::Low });
        if d.compressor != was_cooling {
            switched_at.push((i, d.current_adc, d.current_mdeg));
        }
        was_cooling = d.compressor;
    }
    // the mean of ten trails the ramp by nine counts, so it reaches 150 at sample 159
    assert_eq!(switched_at, vec![(109, 150, 11000)]);
    assert!(d.compressor);
}

#[test]
fn compressor_state_is_kept_inside_the_dead_band() {
    let mut p = Pipeline::new();
    let mut d = Data::default();
    // sensor at 150 counts is 11000 mdeg: cooling starts
    for _ in 0..3 {
        p.tick(&mut d, 150, 400);
    }
    assert!(d.compressor);
    // the sensor falls slowly; inside the dead band the compressor keeps running
    let mut raw = 150u32;
    while d.compressor {
        raw = if raw > 100 { raw - 1 } else { raw };
        p.tick(&mut d, raw, 400);
        if d.compressor {
            assert!(d.current_mdeg > 9000);
        }
    }
    assert_eq!(d.current_mdeg, 9000);
    assert_eq!(d.current_adc, 130);
    // and inside the band again it stays at rest
    for _ in 0..20 {
        p.tick(&mut d, 140, 400);
        assert!(!d.compressor);
        assert!(d.current_mdeg < 11000);
    }
}

#[test]
fn wild_samples_are_absorbed() {
    let mut p = Pipeline::new();
    let mut d = Data::default();
    for _ in 0..5 {
        p.tick(&mut d, 1000, 400);
    }
    let steady = d;
    assert_eq!(steady.current_mdeg, 96_000);
    assert!(steady.compressor);
    // a converter glitch: one sample wrapped below zero, one over full scale
    p.tick(&mut d, u32::MAX, 70_000);
    assert_eq!(d.current_adc_raw, -1);
    assert_eq!(d.setpoint_adc_raw, 70_000);
    assert_eq!(
        d,
        Data { current_adc_raw: -1, setpoint_adc_raw: 70_000, ..steady }
    );
}

#[test]
fn conditioned_readings_stay_within_the_converters_range() {
    let mut p = Pipeline::new();
    let mut d = Data::default();
    let mut seed: u32 = 12345;
    for _ in 0..2000 {
        seed = seed.wrapping_mul(1_664_525).wrapping_add(1_013_904_223);
        let current = seed;
        seed = seed.wrapping_mul(1_664_525).wrapping_add(1_013_904_223);
        let setpoint = seed >> 18;
        p.tick(&mut d, current, setpoint);
        assert!(0 <= d.current_adc && d.current_adc <= 4096);
        assert!(0 <= d.setpoint_adc && d.setpoint_adc <= 4096);
        assert!(-4000 <= d.current_mdeg && d.current_mdeg <= 405_600);
    }
}

#[test]
fn led_follows_the_compressor_duty() {
    let mut p = Pipeline::new();
    let mut d = Data::default();
    let mut actions = Vec::new();
    for _ in 0..21 {
        actions.push(p.tick(&mut d, 50, 400).led);
    }
    let changes: Vec<usize> = (0..21).filter(|i| actions[*i].is_some()).collect();
    assert_eq!(changes, vec![0, 10, 20]);
    assert_eq!(actions[0], Some(Level::High));
    assert_eq!(actions[10], Some(Level::Low));
    assert_eq!(actions[20], Some(Level::High));
    // plausible jump to a hot reading: the mean crosses the threshold at once
    let mut q = Pipeline::new();
    let mut e = Data::default();
    for i in 0..10 {
        let out = q.tick(&mut e, 200, 400);
        assert_eq!(out.compressor, Level::High);
        assert_eq!(out.led, Some(if i % 2 == 0 { Level::High } else { Level::Low }));
    }
}

struct Recorder {
    seen: Vec<Data>,
}

impl Tracer for Recorder {
    fn trace(&mut self, data: &mut Data) {
        self.seen.push(*data);
    }
}

#[test]
fn tracer_sees_each_ticks_record() {
    let mut p = Pipeline::new();
    let mut d = Data::default();
    let mut recorder = Recorder { seen: Vec::new() };
    for i in 0..3u32 {
        p.tick(&mut d, 50 + i, 400);
        recorder.trace(&mut d);
    }
    assert_eq!(recorder.seen.len(), 3);
    assert_eq!(recorder.seen[2].current_adc_raw, 52);
    assert_eq!(recorder.seen[2], d);
}

#[test]
fn float_mean_is_zero_before_the_first_sample() {
    let m = FloatMean::default();
    assert_eq!(m.value(), 0);
}

#[test]
fn float_mean_weighs_a_sample_one_in_twenty() {
    let mut m = FloatMean::default();
    m.add(1000);
    assert_eq!(m.value(), 1000);
    m.add(0);
    assert_eq!(m.value(), 950);
    m.add(2000);
    assert_eq!(m.value(), 1002);
    m.add(-30_000);
    assert_eq!(m.value(), -548);
    m.add(0);
    assert_eq!(m.value(), -520);
}

#[test]
fn float_mean_takes_extreme_samples() {
    let mut m = FloatMean::default();
    m.add(i32::MAX);
    m.add(i32::MAX);
    assert_eq!(m.value(), i32::MAX);
    m.add(i32::MIN);
    assert_eq!(m.value(), 1_932_735_282);
    let mut n = FloatMean::default();
    n.add(i32::MIN);
    n.add(i32::MIN);
    assert_eq!(n.value(), i32::MIN);
}

#[test]
fn sampler_asks_for_the_sensor_after_the_setpoint() {
    let mut s = Sampler::new();
    assert_eq!(s.on_sample(0, 400), SamplerAction::Sample(1));
    assert_eq!(s.on_sample(1, 100), SamplerAction::Report { setpoint: 400, current: 100 });
    assert_eq!(s.on_sample(0, 0), SamplerAction::Sample(1));
    assert_eq!(s.on_sample(1, 200), SamplerAction::Report { setpoint: 380, current: 105 });
    // any channel but the setpoint's counts as the sensor's
    assert_eq!(s.on_sample(7, 105), SamplerAction::Report { setpoint: 380, current: 105 });
}

#[test]
fn sampler_reports_zero_for_a_channel_not_yet_sampled() {
    let mut s = Sampler::new();
    assert_eq!(s.on_sample(1, 100), SamplerAction::Report { setpoint: 0, current: 100 });
}

/// A small generator of repeatable noise for the simulated converters.
struct Noise(u32);

impl Noise {
    fn next(&mut self) -> u32 {
        self.0 = self.0.wrapping_mul(1_664_525).wrapping_add(1_013_904_223);
        self.0 >> 8
    }
}

/// The inside of the fridge as the converters see it: it warms while the
/// compressor rests and cools while it runs, and both converters now and then
/// hand out a wild value.
struct Plant {
    noise: Noise,
    compressor: Level,
    current: u32,
}

impl Plant {
    fn read_current(&mut self) -> u32 {
        if self.noise.next() % 50 == 0 {
            return self.noise.next() % 0xFFF;
        }
        let drift = self.noise.next() % 2;
        let v = match self.compressor {
            Level::Low => self.current + drift,
            Level::High => self.current.saturating_sub(drift),
        };
        self.current = v.min(4096);
        self.current
    }

    fn read_setpoint(&mut self) -> u32 {
        if self.noise.next() % 100 == 0 {
            self.noise.next() % 0xFFF
        } else {
            0
        }
    }
}

#[test]
fn run() {
    let mut plant = Plant { noise: Noise(2016), compressor: Level::Low, current: 0 };
    let mut pipeline = Pipeline::new();
    let mut data = Data::default();
    let mut logger = Recorder { seen: Vec::new() };
    let mut led_lit = false;
    let mut starts = Vec::new();
    let mut stops = Vec::new();

    for tick in 0..600 {
        let was_cooling = data.compressor;
        let current = plant.read_current();
        let setpoint = plant.read_setpoint();
        let out = pipeline.tick(&mut data, current, setpoint);
        plant.compressor = out.compressor;
        if let Some(level) = out.led {
            assert_eq!(level == Level::High, !led_lit);
            led_lit = !led_lit;
        }
        logger.trace(&mut data);

        assert_eq!(out.compressor == Level::High, data.compressor);
        assert_eq!(data.current_adc_raw, current as i32);
        assert_eq!(data.setpoint_adc_raw, setpoint as i32);
        assert!(0 <= data.current_adc && data.current_adc <= 4096);
        assert!(0 <= data.setpoint_adc && data.setpoint_adc <= 4096);
        assert!([5000, 10000, 15000].contains(&data.setpoint_mdeg));
        assert_eq!(data.current_mdeg, data.current_adc * 100 - 4000);
        if data.compressor && !was_cooling {
            assert!(data.current_mdeg >= data.setpoint_mdeg + 1000);
            starts.push(tick);
        }
        if !data.compressor && was_cooling {
            assert!(data.current_mdeg <= data.setpoint_mdeg - 1000);
            stops.push(tick);
        }
        if data.compressor == was_cooling {
            assert!(data.compressor || data.current_mdeg < data.setpoint_mdeg + 1000);
            assert!(!data.compressor || data.current_mdeg > data.setpoint_mdeg - 1000);
        }
    }

    assert_eq!(logger.seen.len(), 600);
    // the dial rests at its lowest band, so the fridge swings between 80 and 100 counts
    assert_eq!(starts, vec![220, 344, 463, 563]);
    assert_eq!(stops, vec![292, 402, 515]);
    assert_eq!(logger.seen[220].current_adc, 100);
    assert_eq!(logger.seen[292].current_adc, 80);
}
