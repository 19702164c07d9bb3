use vstd::prelude::*;
use crate::signal::{channel_value, PolySample, SampleTiming};
use vstd::arithmetic::div_mod::{lemma_fundamental_div_mod, lemma_fundamental_div_mod_converse, lemma_mod_pos_bound};

verus! {

/// A pull-based signal source: each call yields the signal at the instant
/// that the clock shows, and may advance the source's own state.
pub trait Patch {
    fn next_sample(&mut self, sample_timing: &SampleTiming) -> PolySample;
}

/// A patch that can fill a whole interleaved device buffer.
pub trait OutPatch: Patch {
    fn write_data(
        &mut self,
        output: &mut Vec<i32>,
        channels: usize,
        sample_timing: &mut SampleTiming,
    ) -> Option<DeviceEvent>
        requires
            channels > 0,
            old(sample_timing).sample_counter + frame_count(old(output)@.len() as int, channels as int)
                <= u64::MAX,
    ;
}

/// A signal event that the device side acts upon.
#[derive(Clone, Copy, PartialEq, Eq, Debug)]
pub enum DeviceEvent {
    /// A source has ended: stop playback.
    Exit,
}

/// `x` clipped to the amplitude range.
pub open spec fn clip(x: int) -> i32 {
    if x > i32::MAX {
        i32::MAX
    } else if x < i32::MIN {
        i32::MIN
    } else {
        x as i32
    }
}

/// Larger of two lengths.
pub open spec fn wider(a: int, b: int) -> int {
    if a >= b {
        a
    } else {
        b
    }
}

/// `acc` with `s` added channel by channel; a channel one side lacks counts
/// as silence, so the result is as wide as the wider of the two.
pub open spec fn add_into(acc: Seq<i32>, s: Seq<i32>) -> Seq<i32> {
    Seq::new(
        wider(acc.len() as int, s.len() as int) as nat,
        |c: int| clip(channel_value(acc, c) + channel_value(s, c)),
    )
}

/// Running mix of the first `n` samples of `outs`.
pub open spec fn sum_prefix(outs: Seq<Seq<i32>>, n: nat) -> Seq<i32>
    decreases n,
{
    if n == 0 || n > outs.len() {
        Seq::empty()
    } else {
        add_into(sum_prefix(outs, (n - 1) as nat), outs[n - 1])
    }
}

/// Whether one of `outs` is the end-of-stream sentinel.
pub open spec fn any_end(outs: Seq<Seq<i32>>) -> bool {
    exists|i: int| 0 <= i < outs.len() && #[trigger] outs[i].len() == 0
}

/// The mix of the children's samples of one instant: the end of stream if
/// any child ended, else their channel-wise sum.
pub open spec fn mix(outs: Seq<Seq<i32>>) -> Seq<i32> {
    if any_end(outs) {
        Seq::empty()
    } else {
        sum_prefix(outs, outs.len())
    }
}

/// The channel sequences of `samples`.
pub open spec fn views(samples: Seq<PolySample>) -> Seq<Seq<i32>> {
    samples.map_values(|s: PolySample| s@)
}

/// Adds `sample` into `master` channel by channel (see [`add_into`]).
pub fn add_sample_into(master: &mut PolySample, sample: &PolySample)
    ensures
        final(master)@ == add_into(old(master)@, sample@),
{
    let ghost acc = master@;
    let n: usize = sample.0.len();
    let mut i: usize = 0;
    while i < n
        invariant
            n == sample@.len(),
            i <= n,
            master@.len() == wider(acc.len() as int, i as int),
            forall|c: int|
                0 <= c < i ==> #[trigger] master@[c] == clip(channel_value(acc, c) + channel_value(sample@, c)),
            forall|c: int| i <= c < acc.len() ==> #[trigger] master@[c] == acc[c],
        decreases n - i,
    {
        let v: i32 = sample.0[i];
        if i < master.0.len() {
            let cur: i32 = master.0[i];
            let total: i64 = cur as i64 + v as i64;
            let clipped: i32 = if total > i32::MAX as i64 {
                i32::MAX
            } else if total < i32::MIN as i64 {
                i32::MIN
            } else {
                total as i32
            };
            master.0.set(i, clipped);
        } else {
            master.0.push(v);
        }
        i = i + 1;
    }
    assert(master@ =~= add_into(acc, sample@));
}


/// Mixes the samples that the children gave for one instant: the end of
/// stream as soon as one of them ended, else their channel-wise sum.
pub fn mix_samples(samples: &Vec<PolySample>) -> (r: PolySample)
    ensures
        r@ == mix(views(samples@)),
{
    let ghost outs = views(samples@);
    let mut master = PolySample(Vec::new());
    let n: usize = samples.len();
    let mut i: usize = 0;
    while i < n
        invariant
            n == samples@.len(),
            outs == views(samples@),
            i <= n,
            master@ == sum_prefix(outs, i as nat),
            forall|j: int| 0 <= j < i ==> #[trigger] outs[j].len() > 0,
        decreases n - i,
    {
        if samples[i].is_end() {
            assert(outs[i as int].len() == 0);
            return PolySample::end();
        }
        add_sample_into(&mut master, &samples[i]);
        i = i + 1;
    }
    master
}

/// Number of frames, the last one possibly partial, in a buffer of `len`
/// values laid out `channels` to a frame.
pub open spec fn frame_count(len: int, channels: int) -> int {
    len / channels + if len % channels == 0 {
        0int
    } else {
        1int
    }
}

/// Number of frames in a buffer of `len` values, `channels` to a frame.
pub fn frame_count_of(len: usize, channels: usize) -> (r: usize)
    requires
        channels > 0,
    ensures
        r == frame_count(len as int, channels as int),
{
    proof {
        lemma_frame_count_fits(len as int, channels as int);
    }
    len / channels + if len % channels == 0 {
        0
    } else {
        1
    }
}

/// A buffer never holds more frames than values.
proof fn lemma_frame_count_fits(len: int, channels: int)
    requires
        len >= 0,
        channels > 0,
    ensures
        len / channels + 1 <= len || len % channels == 0,
        len / channels >= 0,
{
    lemma_fundamental_div_mod(len, channels);
    lemma_mod_pos_bound(len, channels);
    assert(len / channels >= 0) by (nonlinear_arith)
        requires
            len >= 0,
            channels > 0,
    ;
    assert(len / channels + 1 <= len || len % channels == 0) by (nonlinear_arith)
        requires
            len == channels * (len / channels) + len % channels,
            len % channels >= 0,
            channels > 0,
            len / channels >= 0,
    ;
}

/// Every frame of a buffer starts inside it.
proof fn lemma_frame_start(len: int, channels: int, f: int)
    requires
        len >= 0,
        channels > 0,
        0 <= f < frame_count(len, channels),
    ensures
        f * channels < len,
        (f + 1) * channels == f * channels + channels,
{
    lemma_fundamental_div_mod(len, channels);
    lemma_mod_pos_bound(len, channels);
    let q = len / channels;
    let r = len % channels;
    if r == 0 {
        assert(f * channels < len) by (nonlinear_arith)
            requires
                f < q,
                len == channels * q + r,
                r == 0,
                channels > 0,
                f >= 0,
        ;
    } else {
        assert(f * channels < len) by (nonlinear_arith)
            requires
                f <= q,
                len == channels * q + r,
                0 < r < channels,
                channels > 0,
                f >= 0,
        ;
    }
    assert((f + 1) * channels == f * channels + channels) by (nonlinear_arith);
}

/// Writes `sample` as the frame that starts at `start`: one value per device
/// channel, silence where the sample has no such channel, and nothing past
/// the end of the buffer.
pub fn write_frame(output: &mut Vec<i32>, start: usize, channels: usize, sample: &PolySample)
    ensures
        final(output)@.len() == old(output)@.len(),
        forall|i: int|
            0 <= i < old(output)@.len() ==> #[trigger] final(output)@[i] == if start <= i < start + channels {
                channel_value(sample@, i - start)
            } else {
                old(output)@[i]
            },
{
    let ghost before = output@;
    let len: usize = output.len();
    let mut j: usize = 0;
    while j < channels && start < len - j
        invariant
            len == output@.len(),
            len == before.len(),
            j <= channels,
            j > 0 ==> start + j <= len,
            forall|i: int|
                0 <= i < len ==> #[trigger] output@[i] == if start <= i < start + j {
                    channel_value(sample@, i - start)
                } else {
                    before[i]
                },
        decreases channels - j,
    {
        output.set(start + j, sample.channel_or_silence(j));
        j = j + 1;
    }
}

/// Sums its children, pulled in the order they were added, into one signal.
pub struct MasterPatch<P: Patch> {
    patches: Vec<P>,
}

impl<P: Patch> MasterPatch<P> {
    /// The children, in the order they are pulled.
    pub closed spec fn children(&self) -> Seq<P> {
        self.patches@
    }

    pub fn new() -> (r: Self)
        ensures
            r.children() == Seq::<P>::empty(),
    {
        MasterPatch { patches: Vec::new() }
    }

    /// Appends a child; it is pulled after those added before it.
    pub fn add_patch(&mut self, patch: P)
        ensures
            final(self).children() == old(self).children().push(patch),
    {
        self.patches.push(patch);
    }

    /// Pulls one sample from each child in order and mixes them. A child that
    /// ends ends the mix, and the children after it are not pulled.
    pub fn next_sample(&mut self, sample_timing: &SampleTiming) -> (r: PolySample)
        ensures
            final(self).children().len() == old(self).children().len(),
            exists|outs: Seq<Seq<i32>>|
                outs.len() == old(self).children().len() && r@ == #[trigger] mix(outs),
    {
        let ghost pulled: Seq<Seq<i32>> = Seq::empty();
        let mut master = PolySample(Vec::new());
        let n: usize = self.patches.len();
        let mut i: usize = 0;
        while i < n
            invariant
                n == self.patches@.len(),
                n == old(self).patches@.len(),
                i <= n,
                pulled.len() == i,
                master@ == sum_prefix(pulled, i as nat),
                forall|j: int| 0 <= j < i ==> #[trigger] pulled[j].len() > 0,
            decreases n - i,
        {
            let sample = self.patches[i].next_sample(sample_timing);
            if sample.is_end() {
                let ghost outs = Seq::new(n as nat, |j: int| if j < i { pulled[j] } else { Seq::<i32>::empty() });
                assert(outs[i as int].len() == 0);
                assert(mix(outs) == Seq::<i32>::empty());
                assert(outs.len() == old(self).children().len());
                return PolySample::end();
            }
            add_sample_into(&mut master, &sample);
            proof {
                let next = pulled.push(sample@);
                assert(next.subrange(0, i as int) =~= pulled);
                lemma_sum_prefix_extend(pulled, sample@);
                pulled = next;
            }
            i = i + 1;
        }
        assert(!any_end(pulled));
        assert(pulled.len() == old(self).children().len());
        assert(master@ == mix(pulled));
        master
    }

    /// Fills `output`, `channels` values to a frame, one mixed sample per
    /// frame, ticking the clock once per frame written. Device channels the
    /// mix lacks are silent, and channels of the mix past `channels` are
    /// dropped. When the mix ends, the frame where it ended and those after
    /// it are left as they were and `Exit` is returned.
    pub fn write_data(
        &mut self,
        output: &mut Vec<i32>,
        channels: usize,
        sample_timing: &mut SampleTiming,
    ) -> (r: Option<DeviceEvent>)
        requires
            channels > 0,
            old(sample_timing).sample_counter + frame_count(old(output)@.len() as int, channels as int)
                <= u64::MAX,
        ensures
            final(output)@.len() == old(output)@.len(),
            final(self).children().len() == old(self).children().len(),
            final(sample_timing).sample_rate == old(sample_timing).sample_rate,
            ({
                let k = final(sample_timing).sample_counter - old(sample_timing).sample_counter;
                let len = old(output)@.len() as int;
                &&& 0 <= k <= frame_count(len, channels as int)
                &&& r is None <==> k == frame_count(len, channels as int)
                &&& r is Some ==> r == Some(DeviceEvent::Exit)
                &&& forall|i: int|
                    k * channels <= i < len ==> #[trigger] final(output)@[i] == old(output)@[i]
                &&& exists|fs: Seq<Seq<i32>>|
                    #![trigger fs.len()]
                    fs.len() == k && (forall|f: int| 0 <= f < k ==> #[trigger] fs[f].len() > 0)
                        && forall|i: int|
                        0 <= i < len && i < k * channels ==> #[trigger] final(output)@[i]
                            == channel_value(fs[i / channels as int], i % channels as int)
            }),
    {
        let ghost before = output@;
        let ghost counter0 = sample_timing.sample_counter;
        let ghost mut fs: Seq<Seq<i32>> = Seq::empty();
        let len: usize = output.len();
        let ghost ch = channels as int;
        let frames: usize = frame_count_of(len, channels);
        let mut f: usize = 0;
        while f < frames
            invariant
                len == output@.len(),
                len == before.len(),
                before == old(output)@,
                counter0 == old(sample_timing).sample_counter,
                channels > 0,
                frames == frame_count(len as int, ch),
                ch == channels,
                f <= frames,
                fs.len() == f,
                sample_timing.sample_counter == counter0 + f,
                counter0 + frames <= u64::MAX,
                sample_timing.sample_rate == old(sample_timing).sample_rate,
                self.children().len() == old(self).children().len(),
                forall|g: int| 0 <= g < f ==> #[trigger] fs[g].len() > 0,
                forall|i: int|
                    0 <= i < len ==> #[trigger] output@[i] == if i < f * ch {
                        channel_value(fs[i / ch], i % ch)
                    } else {
                        before[i]
                    },
            decreases frames - f,
        {
            proof {
                lemma_frame_start(len as int, ch, f as int);
            }
            let start: usize = f * channels;
            let sample = self.next_sample(sample_timing);
            if sample.is_end() {
                return Some(DeviceEvent::Exit);
            }
            let ghost mid = output@;
            write_frame(output, start, channels, &sample);
            proof {
                let next = fs.push(sample@);
                assert forall|i: int| 0 <= i < len implies #[trigger] output@[i] == if i < (f + 1) * ch {
                    channel_value(next[i / ch], i % ch)
                } else {
                    before[i]
                } by {
                    if i < start {
                        assert(output@[i] == mid[i]);
                        lemma_fundamental_div_mod(i, ch);
                        lemma_mod_pos_bound(i, ch);
                        assert(i / ch < f) by (nonlinear_arith)
                            requires
                                i < f * ch,
                                i == ch * (i / ch) + i % ch,
                                i % ch >= 0,
                                ch > 0,
                        ;
                        assert(i / ch >= 0) by (nonlinear_arith)
                            requires
                                i >= 0,
                                ch > 0,
                        ;
                        assert(next[i / ch] == fs[i / ch]);
                    } else if i < start + ch {
                        lemma_fundamental_div_mod_converse(i, ch, f as int, i - start);
                        assert(next[f as int] == sample@);
                    }
                }
                fs = next;
            }
            sample_timing.tick();
            f = f + 1;
        }
        None
    }
}

/// Unclipped sum of channel `c` over the first `n` samples of `outs`.
pub open spec fn channel_sum(outs: Seq<Seq<i32>>, n: nat, c: int) -> int
    decreases n,
{
    if n == 0 || n > outs.len() {
        0
    } else {
        channel_sum(outs, (n - 1) as nat, c) + channel_value(outs[n - 1], c)
    }
}

/// Channel count of the widest of the first `n` samples of `outs`.
pub open spec fn widest(outs: Seq<Seq<i32>>, n: nat) -> int
    decreases n,
{
    if n == 0 || n > outs.len() {
        0
    } else {
        wider(widest(outs, (n - 1) as nat), outs[n - 1].len() as int)
    }
}

/// Whether no running sum of any channel leaves the amplitude range.
pub open spec fn fits_without_clipping(outs: Seq<Seq<i32>>) -> bool {
    forall|n: nat, c: int|
        n <= outs.len() ==> i32::MIN <= #[trigger] channel_sum(outs, n, c) <= i32::MAX
}

/// When no child has ended, the mix is the channel-wise sum of the children's
/// samples, as wide as the widest of them, a channel that a child lacks
/// counting as silence (provided the sums stay in the amplitude range).
pub proof fn lemma_mix_is_channel_sum(outs: Seq<Seq<i32>>)
    requires
        forall|i: int| 0 <= i < outs.len() ==> #[trigger] outs[i].len() > 0,
        fits_without_clipping(outs),
    ensures
        mix(outs).len() == widest(outs, outs.len()),
        forall|c: int| 0 <= c < mix(outs).len() ==> #[trigger] mix(outs)[c] == channel_sum(outs, outs.len(), c),
{
    lemma_sum_prefix_is_channel_sum(outs, outs.len());
}

proof fn lemma_sum_prefix_is_channel_sum(outs: Seq<Seq<i32>>, n: nat)
    requires
        n <= outs.len(),
        fits_without_clipping(outs),
    ensures
        sum_prefix(outs, n).len() == widest(outs, n),
        forall|c: int| 0 <= c < sum_prefix(outs, n).len() ==> #[trigger] sum_prefix(outs, n)[c] == channel_sum(outs, n, c),
        forall|c: int| c >= sum_prefix(outs, n).len() ==> channel_sum(outs, n, c) == 0,
    decreases n,
{
    if n > 0 {
        let m = (n - 1) as nat;
        lemma_sum_prefix_is_channel_sum(outs, m);
        let prev = sum_prefix(outs, m);
        assert forall|c: int| 0 <= c < sum_prefix(outs, n).len() implies #[trigger] sum_prefix(outs, n)[c]
            == channel_sum(outs, n, c) by {
            assert(channel_value(prev, c) == channel_sum(outs, m, c));
            assert(i32::MIN <= channel_sum(outs, n, c) <= i32::MAX);
        }
        assert forall|c: int| c >= sum_prefix(outs, n).len() implies channel_sum(outs, n, c) == 0 by {
            assert(channel_sum(outs, m, c) == 0);
        }
    }
}

/// A child that ends ends the whole mix, whatever the others gave.
pub proof fn lemma_end_ends_mix(outs: Seq<Seq<i32>>, k: int)
    requires
        0 <= k < outs.len(),
        outs[k].len() == 0,
    ensures
        mix(outs) == Seq::<i32>::empty(),
{
    assert(any_end(outs));
}

impl<P: Patch> Default for MasterPatch<P> {
    /// A mixer with no children.
    fn default() -> (r: Self)
        ensures
            r.children() == Seq::<P>::empty(),
    {
        Self::new()
    }
}

impl<P: Patch> Patch for MasterPatch<P> {
    fn next_sample(&mut self, sample_timing: &SampleTiming) -> (r: PolySample)
        ensures
            exists|outs: Seq<Seq<i32>>|
                outs.len() == old(self).children().len() && r@ == #[trigger] mix(outs),
    {
        MasterPatch::next_sample(self, sample_timing)
    }
}

impl<P: Patch> OutPatch for MasterPatch<P> {
    fn write_data(
        &mut self,
        output: &mut Vec<i32>,
        channels: usize,
        sample_timing: &mut SampleTiming,
    ) -> Option<DeviceEvent> {
        MasterPatch::write_data(self, output, channels, sample_timing)
    }
}

/// The running mix does not look past its prefix.
proof fn lemma_sum_prefix_extend(outs: Seq<Seq<i32>>, s: Seq<i32>)
    ensures
        sum_prefix(outs.push(s), outs.len() + 1) == add_into(sum_prefix(outs, outs.len()), s),
{
    lemma_sum_prefix_prefix(outs.push(s), outs, outs.len());
}

/// Two sequences that agree on their first `n` entries have the same
/// running mix of them.
proof fn lemma_sum_prefix_prefix(a: Seq<Seq<i32>>, b: Seq<Seq<i32>>, n: nat)
    requires
        n <= a.len(),
        n <= b.len(),
        forall|j: int| 0 <= j < n ==> a[j] == b[j],
    ensures
        sum_prefix(a, n) == sum_prefix(b, n),
    decreases n,
{
    if n > 0 {
        lemma_sum_prefix_prefix(a, b, (n - 1) as nat);
    }
}

} // verus!
