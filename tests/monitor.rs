use synth_core::effect::Effect;
use synth_core::oscilloscope::{Oscilloscope, PlotError};
use synth_core::signal::{PolySample, SampleTiming, TimeSpan};

fn feed(osc: &mut Oscilloscope, timing: &mut SampleTiming, n: i32) {
    for i in 0..n {
        let out = osc.process(timing, PolySample(vec![i, -i]));
        assert_eq!(out.0, vec![i, -i]);
        timing.tick();
    }
}

#[test]
fn window_keeps_the_newest_second() {
    let mut osc = Oscilloscope::new(TimeSpan::from_micros(1_000_000), TimeSpan::from_micros(1_000), 0, 512, 1_000);
    let mut timing = SampleTiming::new(1000);
    feed(&mut osc, &mut timing, 1500);
    assert_eq!(osc.len(), 1000);
    let (t, s) = &osc.buffer[0];
    assert_eq!(t.sample_counter, 500);
    assert_eq!(s.0, vec![500, -500]);
    let (t, s) = &osc.buffer[999];
    assert_eq!(t.sample_counter, 1499);
    assert_eq!(s.0, vec![1499, -1499]);
}

#[test]
fn window_never_exceeds_capacity() {
    let mut osc = Oscilloscope::new(TimeSpan::from_micros(10_000), TimeSpan::from_micros(500), 1, 100, 2_000);
    let mut timing = SampleTiming::new(8_000);
    // capacity 80 points, stride 4 samples
    for i in 0..1000 {
        osc.process(&timing, PolySample(vec![i]));
        timing.tick();
        assert!(osc.len() <= 80);
        assert_eq!(osc.len(), std::cmp::min(i as usize / 4 + 1, 80));
    }
    let (t, _) = &osc.buffer[0];
    assert_eq!(t.sample_counter, 1000 - 80 * 4);
}

#[test]
fn window_shorter_than_a_sample_holds_nothing() {
    let mut osc = Oscilloscope::new(TimeSpan::from_micros(10), TimeSpan::from_micros(10), 0, 10, 1_000);
    let mut timing = SampleTiming::new(1000);
    feed(&mut osc, &mut timing, 10);
    assert_eq!(osc.len(), 0);
}

#[test]
fn passthrough_through_the_effect_trait() {
    let mut osc = Oscilloscope::default();
    let timing = SampleTiming::new(44100);
    let out = Effect::process(&mut osc, &timing, PolySample(vec![1, 2, 3]));
    assert_eq!(out.0, vec![1, 2, 3]);
    let out = Effect::process(&mut osc, &timing, PolySample(vec![]));
    assert!(out.is_end());
}

#[test]
fn plot_needs_two_points() {
    let mut osc = Oscilloscope::default();
    let mut timing = SampleTiming::new(1000);
    assert_eq!(osc.plot_data().err(), Some(PlotError::NoElements));
    feed(&mut osc, &mut timing, 1);
    assert_eq!(osc.plot_data().err(), Some(PlotError::OnlyOneElement));
    feed(&mut osc, &mut timing, 2);
    let d = osc.plot_data().ok().unwrap();
    assert_eq!(d.x_start.sample_counter, 0);
    assert_eq!(d.x_end.sample_counter, 2);
    assert_eq!(d.points.len(), 3);
    assert_eq!(d.points[2].1, 1);
    assert_eq!(d.height, 512);
    assert_eq!(d.width, 512);
}

#[test]
fn plot_reads_the_chosen_channel_and_silence_where_missing() {
    let mut osc = Oscilloscope::new(TimeSpan::from_micros(1_000_000), TimeSpan::from_micros(1_000), 1, 200, 1_500);
    let mut timing = SampleTiming::new(1000);
    feed(&mut osc, &mut timing, 3);
    osc.process(&timing, PolySample(vec![42]));
    let d = osc.plot_data().ok().unwrap();
    let ys: Vec<i32> = d.points.iter().map(|p| p.1).collect();
    assert_eq!(ys, vec![0, -1, -2, 0]);
    assert_eq!(d.x_end.sample_counter, 3);
    assert_eq!(d.width, 300);
}

#[test]
fn image_width_scales_with_window_and_caps() {
    let osc = Oscilloscope::new(TimeSpan::from_micros(2_500_000), TimeSpan::from_micros(1_000), 0, 400, 1_000);
    assert_eq!(osc.image_width(), 1000);
    let big = Oscilloscope::new(TimeSpan::from_micros(u32::MAX), TimeSpan::from_micros(1), 0, u32::MAX, u32::MAX);
    assert_eq!(big.image_width(), u32::MAX);
}

#[test]
fn default_settings() {
    let osc = Oscilloscope::default();
    assert_eq!(osc.buffer_duration.micros, 1_000_000);
    assert_eq!(osc.sample_interval.micros, 1_000);
    assert_eq!(osc.channel, 0);
    assert_eq!(osc.height, 512);
    assert_eq!(osc.aspect_ratio_milli, 1_000);
    assert_eq!(osc.len(), 0);
}
