use synth_core::patch::{add_sample_into, mix_samples, write_frame, DeviceEvent, MasterPatch, OutPatch, Patch};
use synth_core::signal::{PolySample, SampleTiming, UNIT};

/// Emits the same sample on every pull.
struct Constant(Vec<i32>);

impl Patch for Constant {
    fn next_sample(&mut self, _sample_timing: &SampleTiming) -> PolySample {
        PolySample(self.0.clone())
    }
}

/// Emits `value` for `frames` pulls, then ends.
struct Finite {
    value: Vec<i32>,
    left: usize,
}

impl Patch for Finite {
    fn next_sample(&mut self, _sample_timing: &SampleTiming) -> PolySample {
        if self.left == 0 {
            PolySample(vec![])
        } else {
            self.left -= 1;
            PolySample(self.value.clone())
        }
    }
}

/// Either kind of child, so one mixer can hold both.
enum Source {
    Constant(Constant),
    Finite(Finite),
}

impl Patch for Source {
    fn next_sample(&mut self, t: &SampleTiming) -> PolySample {
        match self {
            Source::Constant(c) => c.next_sample(t),
            Source::Finite(f) => f.next_sample(t),
        }
    }
}

#[test]
fn two_constant_children_sum_channelwise() {
    let mut master = MasterPatch::new();
    master.add_patch(Constant(vec![UNIT / 2]));
    master.add_patch(Constant(vec![UNIT / 2, UNIT / 4]));
    let timing = SampleTiming::new(1000);
    for _ in 0..5 {
        assert_eq!(master.next_sample(&timing).0, vec![UNIT, UNIT / 4]);
    }
}

#[test]
fn mix_equals_sum_with_missing_channels_as_silence() {
    let samples = vec![
        PolySample(vec![1, 2, 3]),
        PolySample(vec![10]),
        PolySample(vec![100, 200]),
    ];
    assert_eq!(mix_samples(&samples).0, vec![111, 202, 3]);
}

#[test]
fn mix_of_one_child_is_that_child() {
    let samples = vec![PolySample(vec![-7, 8])];
    assert_eq!(mix_samples(&samples).0, vec![-7, 8]);
}

#[test]
fn mix_of_no_children_is_end() {
    assert!(mix_samples(&vec![]).is_end());
    let mut master: MasterPatch<Constant> = MasterPatch::new();
    assert!(master.next_sample(&SampleTiming::new(44100)).is_end());
    let mut empty: MasterPatch<Constant> = MasterPatch::default();
    let mut output = vec![3; 4];
    let mut timing = SampleTiming::new(44100);
    assert_eq!(empty.write_data(&mut output, 2, &mut timing), Some(DeviceEvent::Exit));
    assert_eq!(output, vec![3; 4]);
    assert_eq!(timing.sample_counter, 0);
}

#[test]
fn one_ended_child_ends_the_mix() {
    let samples = vec![PolySample(vec![1, 2]), PolySample(vec![]), PolySample(vec![3])];
    assert!(mix_samples(&samples).is_end());
    let mut master = MasterPatch::new();
    master.add_patch(Source::Constant(Constant(vec![UNIT])));
    master.add_patch(Source::Finite(Finite { value: vec![1], left: 2 }));
    let timing = SampleTiming::new(1000);
    assert_eq!(master.next_sample(&timing).0, vec![UNIT + 1]);
    assert_eq!(master.next_sample(&timing).0, vec![UNIT + 1]);
    assert!(master.next_sample(&timing).is_end());
}

#[test]
fn mix_clips_at_the_amplitude_range() {
    let samples = vec![PolySample(vec![i32::MAX, i32::MIN]), PolySample(vec![5, -5])];
    assert_eq!(mix_samples(&samples).0, vec![i32::MAX, i32::MIN]);
}

#[test]
fn add_sample_into_widens() {
    let mut master = PolySample(vec![1]);
    add_sample_into(&mut master, &PolySample(vec![2, 3]));
    assert_eq!(master.0, vec![3, 3]);
    add_sample_into(&mut master, &PolySample(vec![4]));
    assert_eq!(master.0, vec![7, 3]);
}

#[test]
fn write_data_pads_device_channels_with_silence() {
    let mut master = MasterPatch::new();
    master.add_patch(Constant(vec![3]));
    master.add_patch(Constant(vec![4, 5]));
    let mut timing = SampleTiming::new(48000);
    let mut output = vec![9; 8 * 4];
    assert_eq!(master.write_data(&mut output, 8, &mut timing), None);
    for frame in output.chunks(8) {
        assert_eq!(frame, &[7, 5, 0, 0, 0, 0, 0, 0]);
    }
    assert_eq!(timing.sample_counter, 4);
}

#[test]
fn write_data_drops_channels_past_the_device() {
    let mut master = MasterPatch::new();
    master.add_patch(Constant(vec![1, 2, 3]));
    let mut timing = SampleTiming::new(48000);
    let mut output = vec![0; 5];
    assert_eq!(OutPatch::write_data(&mut master, &mut output, 2, &mut timing), None);
    assert_eq!(output, vec![1, 2, 1, 2, 1]);
    assert_eq!(timing.sample_counter, 3);
}

#[test]
fn write_data_stops_at_the_frame_where_the_mix_ends() {
    let mut master = MasterPatch::new();
    master.add_patch(Source::Finite(Finite { value: vec![6, 7], left: 2 }));
    master.add_patch(Source::Constant(Constant(vec![1])));
    let mut timing = SampleTiming::new(1000);
    let mut output = vec![-1; 8];
    assert_eq!(master.write_data(&mut output, 2, &mut timing), Some(DeviceEvent::Exit));
    assert_eq!(output, vec![7, 7, 7, 7, -1, -1, -1, -1]);
    assert_eq!(timing.sample_counter, 2);
}

#[test]
fn write_frame_fills_a_partial_last_frame() {
    let mut output = vec![5; 5];
    write_frame(&mut output, 3, 4, &PolySample(vec![8]));
    assert_eq!(output, vec![5, 5, 5, 8, 0]);
}
