use vstd::prelude::*;
use crate::effect::Effect;
use crate::signal::{channel_value, samples_in, PolySample, SampleTiming, TimeSpan};

verus! {

broadcast use vstd::std_specs::vecdeque::group_vec_dequeue_axioms;

/// One retained point of the window: when it was seen, and the whole sample.
pub type WindowPoint = (SampleTiming, Seq<i32>);

/// Capacity of the window, in points, at the rate of `timing`.
pub open spec fn window_capacity(duration: TimeSpan, timing: SampleTiming) -> int {
    samples_in(duration.micros as int, timing.sample_rate as int)
}

/// Spacing of retained points, in samples: never below one.
pub open spec fn stride(interval: TimeSpan, timing: SampleTiming) -> int {
    let n = samples_in(interval.micros as int, timing.sample_rate as int);
    if n < 1 {
        1
    } else {
        n
    }
}

/// The window after one sample passed: unchanged unless the sample is
/// retained; when it is, the oldest points leave first so that, with the new
/// point, at most `capacity` remain.
pub open spec fn next_window(
    w: Seq<WindowPoint>,
    capacity: int,
    retained: bool,
    point: WindowPoint,
) -> Seq<WindowPoint> {
    if !retained {
        w
    } else if capacity <= 0 {
        Seq::empty()
    } else {
        let keep = if w.len() < capacity {
            w.len() as int
        } else {
            capacity - 1
        };
        w.subrange(w.len() - keep, w.len() as int).push(point)
    }
}

/// Keeps a rolling, subsampled window of the signal for display.
pub struct Oscilloscope {
    /// Minimum spacing of retained points.
    pub sample_interval: TimeSpan,
    /// Length of the window.
    pub buffer_duration: TimeSpan,
    /// Samples seen since construction.
    pub last_sample_counter: u64,
    /// Channel shown by the plot.
    pub channel: u8,
    /// Image height, in pixels.
    pub height: u32,
    /// Image width over height per second of window, in thousandths.
    pub aspect_ratio_milli: u32,
    /// The retained points, oldest first, with their times.
    pub buffer: std::collections::VecDeque<(SampleTiming, PolySample)>,
}

/// Why there is nothing to plot.
#[derive(Clone, Copy, PartialEq, Eq, Debug)]
pub enum PlotError {
    /// No point is retained.
    NoElements,
    /// One point cannot make a line.
    OnlyOneElement,
}

/// What a chart of the window is drawn from.
pub struct PlotData {
    /// Image width, in pixels.
    pub width: u32,
    /// Image height, in pixels.
    pub height: u32,
    /// Time of the oldest retained point.
    pub x_start: SampleTiming,
    /// Time of the newest retained point.
    pub x_end: SampleTiming,
    /// Each retained point's time and amplitude on the plotted channel, oldest
    /// first.
    pub points: Vec<(SampleTiming, i32)>,
}

/// Image width for a window of `micros` at `height` and the given aspect
/// ratio in thousandths; capped at the largest width.
pub open spec fn width_for(aspect_ratio_milli: int, micros: int, height: int) -> int {
    let w = aspect_ratio_milli * micros * height / 1_000_000_000;
    if w > u32::MAX {
        u32::MAX as int
    } else {
        w
    }
}

impl Oscilloscope {
    /// The retained points, oldest first.
    pub open spec fn window(&self) -> Seq<WindowPoint> {
        self.buffer@.map_values(|e: (SampleTiming, PolySample)| (e.0, e.1@))
    }

    /// Samples seen since construction.
    pub open spec fn seen(&self) -> u64 {
        self.last_sample_counter
    }

    pub fn new(
        buffer_duration: TimeSpan,
        sample_interval: TimeSpan,
        channel: u8,
        height: u32,
        aspect_ratio_milli: u32,
    ) -> (r: Self)
        ensures
            r.buffer_duration == buffer_duration,
            r.sample_interval == sample_interval,
            r.channel == channel,
            r.height == height,
            r.aspect_ratio_milli == aspect_ratio_milli,
            r.seen() == 0,
            r.window() == Seq::<WindowPoint>::empty(),
    {
        let r = Self {
            sample_interval,
            buffer_duration,
            last_sample_counter: 0,
            channel,
            height,
            aspect_ratio_milli,
            buffer: std::collections::VecDeque::new(),
        };
        assert(r.window() =~= Seq::<WindowPoint>::empty());
        r
    }

    /// Number of retained points.
    pub fn len(&self) -> (r: usize)
        ensures
            r == self.window().len(),
    {
        self.buffer.len()
    }

    /// Observes one sample: retains it when the count of samples seen is a
    /// multiple of the stride, then hands it on unchanged.
    pub fn process(&mut self, sample_timing: &SampleTiming, poly_sample: PolySample) -> (r: PolySample)
        ensures
            r@ == poly_sample@,
            final(self).seen() == if old(self).seen() == u64::MAX {
                0
            } else {
                old(self).seen() + 1
            },
            final(self).buffer_duration == old(self).buffer_duration,
            final(self).sample_interval == old(self).sample_interval,
            final(self).channel == old(self).channel,
            final(self).height == old(self).height,
            final(self).aspect_ratio_milli == old(self).aspect_ratio_milli,
            final(self).window() == next_window(
                old(self).window(),
                window_capacity(old(self).buffer_duration, *sample_timing),
                old(self).seen() % (stride(old(self).sample_interval, *sample_timing) as u64) == 0,
                (*sample_timing, poly_sample@),
            ),
    {
        let capacity: u64 = sample_timing.duration_to_sample_count(self.buffer_duration);
        let mut step: u64 = sample_timing.duration_to_sample_count(self.sample_interval);
        if step == 0 {
            step = 1;
        }
        let ghost w = self.window();
        if self.last_sample_counter % step == 0 {
            let ghost start = self.buffer@;
            let ghost mut dropped: int = 0;
            while self.buffer.len() as u64 >= capacity && self.buffer.len() > 0
                invariant
                    0 <= dropped <= start.len(),
                    self.buffer@ == start.subrange(dropped, start.len() as int),
                    w == start.map_values(|e: (SampleTiming, PolySample)| (e.0, e.1@)),
                    self.last_sample_counter == old(self).last_sample_counter,
                    self.buffer_duration == old(self).buffer_duration,
                    self.sample_interval == old(self).sample_interval,
                    self.channel == old(self).channel,
                    self.height == old(self).height,
                    self.aspect_ratio_milli == old(self).aspect_ratio_milli,
                    dropped > 0 ==> start.len() - dropped + 1 >= capacity,
                decreases self.buffer@.len(),
            {
                self.buffer.pop_front();
                proof {
                    dropped = dropped + 1;
                }
            }
            if capacity > 0 {
                self.buffer.push_back((*sample_timing, poly_sample.clone()));
            }
            proof {
                let n = next_window(w, capacity as int, true, (*sample_timing, poly_sample@));
                assert(self.window() =~= n);
            }
        }
        self.last_sample_counter = if self.last_sample_counter == u64::MAX {
            0
        } else {
            self.last_sample_counter + 1
        };
        poly_sample
    }
}

impl Oscilloscope {
    /// Width of the chart image: the aspect ratio times the window's length
    /// in seconds times the height, floored and capped at the largest width.
    pub fn image_width(&self) -> (r: u32)
        ensures
            r as int == width_for(
                self.aspect_ratio_milli as int,
                self.buffer_duration.micros as int,
                self.height as int,
            ),
    {
        let a: u128 = self.aspect_ratio_milli as u128;
        let m: u128 = self.buffer_duration.micros as u128;
        let h: u128 = self.height as u128;
        proof {
            assert(a * m * h <= u32::MAX as int * u32::MAX as int * u32::MAX as int) by (nonlinear_arith)
                requires
                    a <= u32::MAX,
                    m <= u32::MAX,
                    h <= u32::MAX,
            ;
            assert(a * m <= u32::MAX as int * u32::MAX as int) by (nonlinear_arith)
                requires
                    a <= u32::MAX,
                    m <= u32::MAX,
            ;
        }
        let w: u128 = a * m * h / 1_000_000_000;
        if w > u32::MAX as u128 {
            u32::MAX
        } else {
            w as u32
        }
    }

    /// The series and canvas a chart of the window is drawn from: each
    /// retained point's time and its amplitude on the plotted channel (silence
    /// where the sample lacks it), the time axis running from the oldest to
    /// the newest point. Fewer than two points make no line.
    pub fn plot_data(&self) -> (r: Result<PlotData, PlotError>)
        ensures
            r is Err <==> self.window().len() < 2,
            self.window().len() == 0 ==> r == Err::<PlotData, PlotError>(PlotError::NoElements),
            self.window().len() == 1 ==> r == Err::<PlotData, PlotError>(PlotError::OnlyOneElement),
            r matches Ok(d) ==> {
                &&& d.height == self.height
                &&& d.width as int == width_for(
                    self.aspect_ratio_milli as int,
                    self.buffer_duration.micros as int,
                    self.height as int,
                )
                &&& d.x_start == self.window()[0].0
                &&& d.x_end == self.window().last().0
                &&& d.points@ == self.window().map_values(
                    |p: WindowPoint| (p.0, channel_value(p.1, self.channel as int)),
                )
            },
    {
        let n: usize = self.buffer.len();
        if n == 0 {
            return Err(PlotError::NoElements);
        }
        if n == 1 {
            return Err(PlotError::OnlyOneElement);
        }
        let ghost w = self.window();
        let mut points: Vec<(SampleTiming, i32)> = Vec::new();
        let mut i: usize = 0;
        while i < n
            invariant
                n == self.buffer@.len(),
                w == self.window(),
                i <= n,
                points@ == w.subrange(0, i as int).map_values(
                    |p: WindowPoint| (p.0, channel_value(p.1, self.channel as int)),
                ),
            decreases n - i,
        {
            let e = &self.buffer[i];
            points.push((e.0, e.1.channel_or_silence(self.channel as usize)));
            proof {
                assert(w.subrange(0, i + 1) =~= w.subrange(0, i as int).push(w[i as int]));
            }
            i = i + 1;
        }
        assert(w.subrange(0, n as int) =~= w);
        Ok(
            PlotData {
                width: self.image_width(),
                height: self.height,
                x_start: self.buffer[0].0,
                x_end: self.buffer[n - 1].0,
                points,
            },
        )
    }
}

impl Default for Oscilloscope {
    /// A one-second window, a point every millisecond, channel 0, 512 pixels
    /// high, as wide per second as high.
    fn default() -> (r: Self)
        ensures
            r.buffer_duration.micros == 1_000_000,
            r.sample_interval.micros == 1_000,
            r.channel == 0,
            r.height == 512,
            r.aspect_ratio_milli == 1_000,
            r.seen() == 0,
            r.window() == Seq::<WindowPoint>::empty(),
    {
        Self::new(TimeSpan::from_micros(1_000_000), TimeSpan::from_micros(1_000), 0, 512, 1_000)
    }
}

/// The capacity is the window's length times the rate, rounded down: never
/// above that product, so never above its ceiling either.
pub proof fn lemma_capacity_within_product(duration: TimeSpan, timing: SampleTiming)
    ensures
        0 <= window_capacity(duration, timing) * 1_000_000 <= duration.micros as int * timing.sample_rate as int,
{
    let p = duration.micros as int * timing.sample_rate as int;
    let (m, r) = (duration.micros as int, timing.sample_rate as int);
    assert(m * r >= 0) by (nonlinear_arith)
        requires
            m >= 0,
            r >= 0,
    ;
    vstd::arithmetic::div_mod::lemma_fundamental_div_mod(p, 1_000_000);
    vstd::arithmetic::div_mod::lemma_mod_pos_bound(p, 1_000_000);
    vstd::arithmetic::div_mod::lemma_div_pos_is_pos(p, 1_000_000);
}

/// The window only grows one point at a time and never past its capacity:
/// a window within capacity stays within it, and each retained sample adds a
/// point until the window is full.
pub proof fn lemma_window_within_capacity(
    w: Seq<WindowPoint>,
    capacity: int,
    retained: bool,
    point: WindowPoint,
)
    requires
        w.len() <= capacity || capacity <= 0,
    ensures
        capacity > 0 ==> next_window(w, capacity, retained, point).len() <= capacity,
        capacity <= 0 && retained ==> next_window(w, capacity, retained, point).len() == 0,
        retained && capacity > 0 ==> next_window(w, capacity, retained, point).len() == if w.len() < capacity {
            w.len() + 1int
        } else {
            capacity
        },
{
}

/// The window after retaining each of `points` in turn.
pub open spec fn retain_all(w: Seq<WindowPoint>, capacity: int, points: Seq<WindowPoint>) -> Seq<WindowPoint>
    decreases points.len(),
{
    if points.len() == 0 {
        w
    } else {
        next_window(retain_all(w, capacity, points.drop_last()), capacity, true, points.last())
    }
}

/// The last `k` entries of `s` (all of it if it is shorter).
pub open spec fn last_n(s: Seq<WindowPoint>, k: int) -> Seq<WindowPoint> {
    if s.len() <= k {
        s
    } else {
        s.subrange(s.len() - k, s.len() as int)
    }
}

/// The window is first in, first out: after retaining a run of points it
/// holds the newest `capacity` of everything it has seen, oldest first; so
/// once `capacity` points have been retained it is full and holds exactly
/// the last `capacity` of them.
pub proof fn lemma_window_keeps_newest(w: Seq<WindowPoint>, capacity: int, points: Seq<WindowPoint>)
    requires
        capacity > 0,
        w.len() <= capacity,
    ensures
        retain_all(w, capacity, points) == last_n(w + points, capacity),
        points.len() >= capacity ==> retain_all(w, capacity, points) == points.subrange(
            points.len() - capacity,
            points.len() as int,
        ),
    decreases points.len(),
{
    if points.len() > 0 {
        let prev = points.drop_last();
        lemma_window_keeps_newest(w, capacity, prev);
        let s = last_n(w + prev, capacity);
        let all = w + points;
        assert(all =~= (w + prev).push(points.last()));
        assert(retain_all(w, capacity, points) =~= last_n(all, capacity));
    } else {
        assert(w + points =~= w);
    }
    if points.len() >= capacity {
        assert(last_n(w + points, capacity) =~= points.subrange(points.len() - capacity, points.len() as int));
    }
}

impl Effect for Oscilloscope {
    fn process(&mut self, sample_timing: &SampleTiming, poly_sample: PolySample) -> (r: PolySample)
        ensures
            r@ == poly_sample@,
    {
        Oscilloscope::process(self, sample_timing, poly_sample)
    }
}

} // verus!
