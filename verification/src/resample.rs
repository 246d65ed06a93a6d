//! How audio of any sample rate becomes a 16000 Hz mono signal.

use crate::channels::{
    channels_that_can_be_merged, contents, contents_hold_every_channel, deinterleaved,
    first_is_shortest, interleaved, merge, merging_a_file_restores_its_samples,
    merging_puts_channels_side_by_side, rectangular,
};
use vstd::prelude::*;

verus! {

/// The sample rate of every signal, in Hz.
pub const TARGET_SR: u32 = 16_000;

/// How the values between two points of the sinc table are found.
#[derive(Debug, Clone, Copy, PartialEq, Eq, Structural)]
pub enum SincInterpolation {
    Nearest,
    Linear,
    Quadratic,
    Cubic,
}

/// The window that the sinc filter is shaped with.
#[derive(Debug, Clone, Copy, PartialEq, Eq, Structural)]
pub enum SincWindow {
    Blackman,
    Blackman2,
    BlackmanHarris,
    BlackmanHarris2,
    Hann,
    Hann2,
}

/// What a sinc resampler is asked to do.
#[derive(Debug, Clone, Copy, PartialEq, Eq, Structural)]
pub struct SincJob {
    /// Sample rate of the output, in Hz.
    pub target_rate: u32,
    /// Sample rate of the input, in Hz.
    pub source_rate: u32,
    /// How far the ratio of the rates may be changed, as a factor.
    pub max_relative_ratio: u32,
    /// Length of the sinc filter.
    pub sinc_len: usize,
    /// Cutoff of the filter, in thousandths of the Nyquist frequency.
    pub cutoff_per_mille: u32,
    pub interpolation: SincInterpolation,
    /// Points of the sinc table between two samples.
    pub oversampling_factor: usize,
    pub window: SincWindow,
    /// Frames of the input, all of them in one chunk.
    pub chunk_frames: usize,
    /// Channels of the input and of the output.
    pub channels: usize,
}

/// There are samples, at another rate than the target rate.
pub open spec fn needs_sinc<T>(input: Seq<Seq<T>>, source_sample_rate: u32) -> bool {
    source_sample_rate != TARGET_SR && input.len() > 0 && input[0].len() > 0
}

/// The job for an input of so many frames and channels: the high-fidelity
/// filter, over the whole input at once.
pub open spec fn sinc_job(frames: nat, channels: nat, source_sample_rate: u32) -> SincJob {
    SincJob {
        target_rate: TARGET_SR,
        source_rate: source_sample_rate,
        max_relative_ratio: 2,
        sinc_len: 512,
        cutoff_per_mille: 925,
        interpolation: SincInterpolation::Cubic,
        oversampling_factor: 256,
        window: SincWindow::BlackmanHarris2,
        chunk_frames: frames as usize,
        channels: channels as usize,
    }
}

/// `sinc` can be given this input, if it is needed at all. Each channel then has
/// all the frames of the job, and the ratio of the rates is finite.
pub open spec fn can_resample<T, R: Fn(&[Vec<T>], SincJob) -> Vec<Vec<T>>>(
    sinc: R,
    input: &[Vec<T>],
    source_sample_rate: u32,
) -> bool {
    let all = contents(input@);
    needs_sinc(all, source_sample_rate) ==> {
        &&& source_sample_rate > 0
        &&& first_is_shortest(all)
        &&& call_requires(sinc, (input, sinc_job(all[0].len(), all.len(), source_sample_rate)))
    }
}

/// `output` is `input` at the target rate: the same samples where it has that
/// rate already, no channels where there are no samples, and else what `sinc`
/// makes of it.
pub open spec fn resampled<T, R: Fn(&[Vec<T>], SincJob) -> Vec<Vec<T>>>(
    sinc: R,
    input: &[Vec<T>],
    source_sample_rate: u32,
    output: Vec<Vec<T>>,
) -> bool {
    let all = contents(input@);
    if source_sample_rate == TARGET_SR {
        contents(output@) == all
    } else if !needs_sinc(all, source_sample_rate) {
        output@.len() == 0
    } else {
        call_ensures(sinc, (input, sinc_job(all[0].len(), all.len(), source_sample_rate)), output)
    }
}

/// Resamples multi-channel audio to exactly 16000 Hz, where it has another rate
/// by means of the sinc resampler `sinc`.
pub fn resample_to_16k<T: Copy, R: Fn(&[Vec<T>], SincJob) -> Vec<Vec<T>>>(
    input: &[Vec<T>],
    source_sample_rate: u32,
    sinc: &R,
) -> (output: Vec<Vec<T>>)
    requires
        can_resample(*sinc, input, source_sample_rate),
    ensures
        resampled(*sinc, input, source_sample_rate, output),
        source_sample_rate == 16_000 ==> {
            &&& output@.len() == input@.len()
            &&& forall|c: int| 0 <= c < input@.len() ==> (#[trigger] output@[c])@ == input@[c]@
        },
        source_sample_rate != 16_000 && (input@.len() == 0 || input@[0]@.len() == 0)
            ==> output@.len() == 0,
        source_sample_rate != 16_000 && input@.len() > 0 && input@[0]@.len() > 0 ==>
        exists|job: SincJob|
            {
            &&& #[trigger] call_ensures(*sinc, (input, job), output)
            &&& job.target_rate == 16_000
            &&& job.source_rate == source_sample_rate
            &&& job.chunk_frames == input@[0]@.len()
            &&& job.channels == input@.len()
            &&& job.max_relative_ratio == 2
            &&& job.sinc_len == 512
            &&& job.cutoff_per_mille == 925
            &&& job.oversampling_factor == 256
            &&& job.interpolation == SincInterpolation::Cubic
            &&& job.window == SincWindow::BlackmanHarris2
            },
{
    let num_channels: usize = input.len();
    if source_sample_rate == TARGET_SR {
        let mut copy: Vec<Vec<T>> = Vec::new();
        for c in 0..num_channels
            invariant
                num_channels == input@.len(),
                copy@.len() == c,
                forall|d: int| 0 <= d < c ==> (#[trigger] copy@[d])@ == input@[d]@,
        {
            copy.push(vstd::slice::slice_to_vec(input[c].as_slice()));
        }
        assert(contents(copy@) =~= contents(input@));
        assert(resampled(*sinc, input, source_sample_rate, copy));
        proof {
            audio_at_16000_is_not_touched(*sinc, input, copy);
        }
        return copy;
    }
    if num_channels == 0 || input[0].len() == 0 {
        return Vec::new();
    }
    let input_frames: usize = input[0].len();
    let output: Vec<Vec<T>> = sinc(
        input,
        SincJob {
            target_rate: TARGET_SR,
            source_rate: source_sample_rate,
            max_relative_ratio: 2,
            sinc_len: 512,
            cutoff_per_mille: 925,
            interpolation: SincInterpolation::Cubic,
            oversampling_factor: 256,
            window: SincWindow::BlackmanHarris2,
            chunk_frames: input_frames,
            channels: num_channels,
        },
    );
    proof {
        resampler_is_told_the_true_rates(*sinc, input, source_sample_rate, output);
    }
    output
}

/// `signal` is what `to_mono` makes of the interleaved samples and the number of
/// channels.
pub open spec fn mixed_down<T, M: Fn(&[T], usize) -> Vec<T>>(
    to_mono: M,
    interleaved_samples: Seq<T>,
    channels: usize,
    signal: Vec<T>,
) -> bool {
    exists|merged: &[T]|
        merged@ == interleaved_samples && #[trigger] call_ensures(to_mono, (merged, channels), signal)
}

/// The 16000 Hz mono signal of the audio of a file: its channels are resampled,
/// interleaved, and mixed down by `to_mono`, which is told how many channels the
/// file has.
pub fn prepare_signal<
    T: Copy,
    R: Fn(&[Vec<T>], SincJob) -> Vec<Vec<T>>,
    M: Fn(&[T], usize) -> Vec<T>,
>(audio: &(Vec<Vec<T>>, i32), sinc: &R, to_mono: &M) -> (signal: Vec<T>)
    requires
        audio.1 >= 0,
        forall|input: &[Vec<T>]|
            input@ == audio.0@ ==> #[trigger] can_resample(*sinc, input, audio.1 as u32),
        forall|input: &[Vec<T>], output: Vec<Vec<T>>|
            input@ == audio.0@ && #[trigger] resampled(*sinc, input, audio.1 as u32, output)
                ==> first_is_shortest(contents(output@)),
        forall|input: &[Vec<T>], output: Vec<Vec<T>>, merged: &[T]|
            input@ == audio.0@ && #[trigger] resampled(*sinc, input, audio.1 as u32, output)
                && merged@ == interleaved(contents(output@)) ==> #[trigger] call_requires(
                *to_mono,
                (merged, audio.0@.len() as usize),
            ),
    ensures
        exists|input: &[Vec<T>], output: Vec<Vec<T>>|
            input@ == audio.0@ && #[trigger] resampled(*sinc, input, audio.1 as u32, output)
                && mixed_down(
                *to_mono,
                interleaved(contents(output@)),
                audio.0@.len() as usize,
                signal,
            ),
        exists|input: &[Vec<T>], output: Vec<Vec<T>>, merged: &[T]|
            {
                &&& input@ == audio.0@
                &&& #[trigger] resampled(*sinc, input, audio.1 as u32, output)
                &&& #[trigger] call_ensures(*to_mono, (merged, audio.0@.len() as usize), signal)
                &&& output@.len() == 0 ==> merged@.len() == 0
                &&& output@.len() > 0 ==> merged@.len() == output@[0]@.len() * output@.len()
                &&& forall|frame: int, channel: int|
                    0 <= channel < output@.len() && 0 <= frame < output@[0]@.len()
                        ==> merged@[frame * output@.len() + channel]
                        == #[trigger] output@[channel]@[frame]
            },
{
    let input: &[Vec<T>] = audio.0.as_slice();
    let output: Vec<Vec<T>> = resample_to_16k(input, audio.1 as u32, sinc);
    assert(resampled(*sinc, input, audio.1 as u32, output));
    let merged: Vec<T> = merge(output.as_slice());
    let samples: &[T] = merged.as_slice();
    let channels: usize = audio.0.len();
    let signal: Vec<T> = to_mono(samples, channels);
    assert(call_ensures(*to_mono, (samples, channels), signal));
    signal
}

/// Whenever the resampler is run, it is told the true rates, 16000 Hz and the rate of
/// the source, and the true size of the input, and is asked for the high-fidelity
/// filter.
pub proof fn resampler_is_told_the_true_rates<T, R: Fn(&[Vec<T>], SincJob) -> Vec<Vec<T>>>(
    sinc: R,
    input: &[Vec<T>],
    source_sample_rate: u32,
    output: Vec<Vec<T>>,
)
    requires
        resampled(sinc, input, source_sample_rate, output),
        source_sample_rate != 16_000,
        0 < input@.len() <= usize::MAX,
        0 < input@[0]@.len() <= usize::MAX,
    ensures
        exists|job: SincJob|
            {
            &&& #[trigger] call_ensures(sinc, (input, job), output)
            &&& job.target_rate == 16_000
            &&& job.source_rate == source_sample_rate
            &&& job.chunk_frames == input@[0]@.len()
            &&& job.channels == input@.len()
            &&& job.max_relative_ratio == 2
            &&& job.sinc_len == 512
            &&& job.cutoff_per_mille == 925
            &&& job.oversampling_factor == 256
            &&& job.interpolation == SincInterpolation::Cubic
            &&& job.window == SincWindow::BlackmanHarris2
            },
{
    let all = contents(input@);
    contents_hold_every_channel(input@, 0);
    let job = sinc_job(all[0].len(), all.len(), source_sample_rate);
    assert(call_ensures(sinc, (input, job), output));
}

/// Audio at 16000 Hz is given back as it is, channel by channel, whatever the
/// resampler would do.
pub proof fn audio_at_16000_is_not_touched<T, R: Fn(&[Vec<T>], SincJob) -> Vec<Vec<T>>>(
    sinc: R,
    input: &[Vec<T>],
    output: Vec<Vec<T>>,
)
    requires
        resampled(sinc, input, 16_000, output),
    ensures
        output@.len() == input@.len(),
        forall|c: int| 0 <= c < input@.len() ==> (#[trigger] output@[c])@ == input@[c]@,
{
    assert(contents(output@).len() == contents(input@).len());
    assert forall|c: int| 0 <= c < input@.len() implies (#[trigger] output@[c])@ == input@[c]@ by {
        contents_hold_every_channel(input@, c);
        contents_hold_every_channel(output@, c);
    }
}

/// At any other rate, audio without a sample in its first channel gives no channels.
pub proof fn audio_without_samples_vanishes<T, R: Fn(&[Vec<T>], SincJob) -> Vec<Vec<T>>>(
    sinc: R,
    input: &[Vec<T>],
    source_sample_rate: u32,
    output: Vec<Vec<T>>,
)
    requires
        resampled(sinc, input, source_sample_rate, output),
        source_sample_rate != 16_000,
        input@.len() == 0 || input@[0]@.len() == 0,
    ensures
        output@.len() == 0,
{
}

/// Any audio of a positive rate can be resampled by a resampler that takes every
/// input, provided that no channel is shorter than the first.
pub proof fn any_even_audio_can_be_resampled<T, R: Fn(&[Vec<T>], SincJob) -> Vec<Vec<T>>>(
    sinc: R,
    input: &[Vec<T>],
    source_sample_rate: u32,
)
    requires
        source_sample_rate > 0,
        forall|c: int| 0 <= c < input@.len() ==> input@[0]@.len() <= (#[trigger] input@[c])@.len(),
        forall|job: SincJob| #[trigger] call_requires(sinc, (input, job)),
    ensures
        can_resample(sinc, input, source_sample_rate),
{
    let all = contents(input@);
    assert forall|c: int| 0 <= c < all.len() implies all[0].len() <= (#[trigger] all[c]).len() by {
        assert(all[c] == input@[c]@);
    }
    channels_that_can_be_merged(all);
}

/// The mixing is given the samples of the resampled channels side by side, frame
/// after frame, and nothing else.
pub proof fn mixing_sees_every_frame<T, M: Fn(&[T], usize) -> Vec<T>>(
    to_mono: M,
    output: Vec<Vec<T>>,
    channels: usize,
    signal: Vec<T>,
)
    requires
        mixed_down(to_mono, interleaved(contents(output@)), channels, signal),
    ensures
        exists|merged: &[T]|
            {
                &&& #[trigger] call_ensures(to_mono, (merged, channels), signal)
                &&& output@.len() == 0 ==> merged@.len() == 0
                &&& output@.len() > 0 ==> merged@.len() == output@[0]@.len() * output@.len()
                &&& forall|frame: int, channel: int|
                    0 <= channel < output@.len() && 0 <= frame < output@[0]@.len()
                        ==> merged@[frame * output@.len() + channel]
                        == #[trigger] output@[channel]@[frame]
            },
{
    let all = contents(output@);
    let merged = choose|merged: &[T]|
        merged@ == interleaved(all) && #[trigger] call_ensures(to_mono, (merged, channels), signal);
    assert forall|frame: int, channel: int|
        0 <= channel < output@.len() && 0 <= frame < output@[0]@.len() implies merged@[frame
        * output@.len() + channel] == #[trigger] output@[channel]@[frame] by {
        contents_hold_every_channel(output@, 0);
        contents_hold_every_channel(output@, channel);
        merging_puts_channels_side_by_side(all, frame, channel);
    }
    if output@.len() > 0 {
        contents_hold_every_channel(output@, 0);
    }
    assert(call_ensures(to_mono, (merged, channels), signal));
}

/// Audio that has the target rate already reaches the mixing as it stands in the
/// file: resampling and interleaving its channels gives the file's samples.
pub proof fn audio_at_the_target_rate_is_kept<T, R: Fn(&[Vec<T>], SincJob) -> Vec<Vec<T>>>(
    sinc: R,
    samples: Seq<T>,
    count: nat,
    input: &[Vec<T>],
    output: Vec<Vec<T>>,
)
    requires
        count > 0,
        samples.len() % count == 0,
        contents(input@) == deinterleaved(samples, count),
        resampled(sinc, input, TARGET_SR, output),
    ensures
        interleaved(contents(output@)) == samples,
{
    merging_a_file_restores_its_samples(samples, count);
}

/// `sinc` treats each channel for itself: it gives back as many channels as it is
/// given, and makes of a channel what it makes of that channel alone.
pub open spec fn keeps_channels_apart<T, R: Fn(&[Vec<T>], SincJob) -> Vec<Vec<T>>>(sinc: R) -> bool {
    forall|
        input: &[Vec<T>],
        job: SincJob,
        output: Vec<Vec<T>>,
        alone: &[Vec<T>],
        j: int,
        single: Vec<Vec<T>>,
    |
        #![trigger call_ensures(sinc, (input, job), output), call_ensures(
            sinc,
            (alone, (SincJob { channels: 1, ..job })),
            single,
        ), input@[j]]
        call_ensures(sinc, (input, job), output) && call_ensures(
            sinc,
            (alone, (SincJob { channels: 1, ..job })),
            single,
        ) && 0 <= j < input@.len() && alone@.len() == 1 && alone@[0]@ == input@[j]@ ==> {
            &&& output@.len() == input@.len()
            &&& single@.len() == 1
            &&& output@[j]@ == single@[0]@
        }
}

/// Resampling does not mix channels and keeps their order, provided that the
/// resampler treats each for itself: channel `j` of the output is what that channel
/// gives when it is resampled alone.
pub proof fn resampling_keeps_channels_apart<T, R: Fn(&[Vec<T>], SincJob) -> Vec<Vec<T>>>(
    sinc: R,
    source_sample_rate: u32,
    input: &[Vec<T>],
    output: Vec<Vec<T>>,
    j: int,
    alone: &[Vec<T>],
    single: Vec<Vec<T>>,
)
    requires
        keeps_channels_apart(sinc),
        0 <= j < input@.len() <= usize::MAX,
        input@[0]@.len() > 0,
        rectangular(contents(input@)),
        alone@.len() == 1,
        alone@[0]@ == input@[j]@,
        resampled(sinc, input, source_sample_rate, output),
        resampled(sinc, alone, source_sample_rate, single),
    ensures
        contents(output@).len() == input@.len(),
        contents(single@).len() == 1,
        contents(output@)[j] == contents(single@)[0],
{
    let all = contents(input@);
    assert(all[j].len() == all[0].len());
    assert(contents(alone@)[0] == all[j]);
    if source_sample_rate != TARGET_SR {
        let job = sinc_job(all[0].len(), all.len(), source_sample_rate);
        let job_alone = sinc_job(contents(alone@)[0].len(), contents(alone@).len(), source_sample_rate);
        assert(job_alone == (SincJob { channels: 1, ..job }));
        assert(call_ensures(sinc, (input, job), output));
        assert(call_ensures(sinc, (alone, (SincJob { channels: 1, ..job })), single));
        let channel = input@[j];
        assert(output@.len() == input@.len());
    } else {
        assert(contents(output@) == all);
        assert(contents(single@) == contents(alone@));
    }
}

} // verus!
