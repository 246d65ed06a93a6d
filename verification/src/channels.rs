//! Channel layouts: one sequence of samples per channel, or one interleaved
//! sequence that goes frame by frame.

use vstd::arithmetic::div_mod::lemma_fundamental_div_mod_converse;
use vstd::arithmetic::div_mod::lemma_fundamental_div_mod;
use vstd::prelude::*;

verus! {

/// The samples of each channel.
pub open spec fn contents<T>(channels: Seq<Vec<T>>) -> Seq<Seq<T>> {
    Seq::new(channels.len(), |c: int| channels[c]@)
}

/// No channel is shorter than the first one.
pub open spec fn first_is_shortest<T>(channels: Seq<Seq<T>>) -> bool {
    forall|c: int| 0 <= c < channels.len() ==> (#[trigger] channels[c]).len() >= channels[0].len()
}

/// All channels are equally long.
pub open spec fn rectangular<T>(channels: Seq<Seq<T>>) -> bool {
    forall|c: int| 0 <= c < channels.len() ==> (#[trigger] channels[c]).len() == channels[0].len()
}

/// The interleaved form: frame by frame, and channel by channel inside a frame.
/// There are as many frames as the first channel has samples.
pub open spec fn interleaved<T>(channels: Seq<Seq<T>>) -> Seq<T> {
    if channels.len() == 0 {
        Seq::empty()
    } else {
        Seq::new(
            channels[0].len() * channels.len(),
            |k: int| channels[k % (channels.len() as int)][k / (channels.len() as int)],
        )
    }
}

/// The channels of an interleaved sequence: channel `c` holds every `count`-th
/// sample, starting at sample `c`.
pub open spec fn deinterleaved<T>(samples: Seq<T>, count: nat) -> Seq<Seq<T>> {
    Seq::new(
        count,
        |c: int| Seq::new(samples.len() / count, |f: int| samples[f * count + c]),
    )
}

proof fn lemma_position(frame: int, channel: int, count: int)
    requires
        0 <= channel < count,
        0 <= frame,
    ensures
        (frame * count + channel) / count == frame,
        (frame * count + channel) % count == channel,
{
    lemma_fundamental_div_mod_converse(frame * count + channel, count, frame, channel);
}

/// Interleaves the channels.
pub fn merge<T: Copy>(input: &[Vec<T>]) -> (output: Vec<T>)
    requires
        first_is_shortest(contents(input@)),
    ensures
        output@ == interleaved(contents(input@)),
        input@.len() == 0 ==> output@.len() == 0,
        input@.len() > 0 ==> output@.len() == input@[0]@.len() * input@.len(),
        forall|frame: int, channel: int|
            0 <= channel < input@.len() && 0 <= frame < input@[0]@.len()
                ==> output@[frame * input@.len() + channel] == #[trigger] input@[channel]@[frame],
{
    if input.len() == 0 {
        return Vec::new();
    }
    let ghost all = contents(input@);
    let count: usize = input.len();
    let inner_len: usize = input[0].len();
    let mut output: Vec<T> = Vec::new();
    assert(0 * count == 0) by (nonlinear_arith);
    for i in 0..inner_len
        invariant
            count == input.len() == all.len() > 0,
            all == contents(input@),
            inner_len == all[0].len(),
            first_is_shortest(all),
            output@.len() == i * count,
            forall|k: int| 0 <= k < output@.len() ==> #[trigger] output@[k] == all[k % (count as int)][k / (count as int)],
    {
        for j in 0..count
            invariant
                count == input.len() == all.len() > 0,
                all == contents(input@),
                i < inner_len == all[0].len(),
                first_is_shortest(all),
                output@.len() == i * count + j,
                forall|k: int| 0 <= k < output@.len() ==> #[trigger] output@[k] == all[k % (count as int)][k / (count as int)],
        {
            proof {
                lemma_position(i as int, j as int, count as int);
                assert(all[j as int].len() >= all[0].len());
            }
            output.push(input[j][i]);
        }
        assert(i * count + count == (i + 1) * count) by (nonlinear_arith);
    }
    assert(output@ =~= interleaved(all));
    assert forall|frame: int, channel: int|
        0 <= channel < input@.len() && 0 <= frame < input@[0]@.len() implies output@[frame
        * input@.len() + channel] == #[trigger] input@[channel]@[frame] by {
        merging_puts_channels_side_by_side(all, frame, channel);
        assert(all[channel][frame] == input@[channel]@[frame]);
    }
    output
}

/// Sorts the interleaved samples of a wav file into its channels, and hands the
/// sample rate on.
pub fn lire_fichier_wav<T: Copy>(samples: &[T], n_channels: usize, sample_rate: i32) -> (audio: (
    Vec<Vec<T>>,
    i32,
))
    requires
        n_channels > 0,
        samples@.len() % (n_channels as nat) == 0,
    ensures
        contents(audio.0@) == deinterleaved(samples@, n_channels as nat),
        audio.0@.len() == n_channels,
        forall|channel: int|
            0 <= channel < n_channels ==> (#[trigger] audio.0@[channel])@.len() * n_channels
                == samples@.len(),
        forall|frame: int, channel: int|
            0 <= channel < n_channels && 0 <= frame && frame * n_channels < samples@.len()
                ==> #[trigger] audio.0@[channel]@[frame] == samples@[frame * n_channels + channel],
        audio.1 == sample_rate,
{
    let total: usize = samples.len();
    let frames: usize = total / n_channels;
    let ghost all = deinterleaved(samples@, n_channels as nat);
    proof {
        lemma_fundamental_div_mod(samples@.len() as int, n_channels as int);
        assert(frames * n_channels == samples@.len()) by (nonlinear_arith)
            requires samples@.len() == n_channels * frames;
    }
    let mut channels: Vec<Vec<T>> = Vec::new();
    for c in 0..n_channels
        invariant
            frames * n_channels == samples@.len() == total,
            frames == samples@.len() / (n_channels as nat),
            all == deinterleaved(samples@, n_channels as nat),
            channels@.len() == c,
            forall|d: int| 0 <= d < c ==> (#[trigger] channels@[d])@ == all[d],
    {
        let mut channel: Vec<T> = Vec::new();
        for f in 0..frames
            invariant
                c < n_channels,
                frames * n_channels == samples@.len() == total,
                channel@.len() == f,
                forall|g: int| 0 <= g < f ==> #[trigger] channel@[g] == samples@[g * n_channels + c],
        {
            assert(0 <= f * n_channels + c < frames * n_channels) by (nonlinear_arith)
                requires
                    0 <= c < n_channels,
                    0 <= f < frames,
            ;
            assert(0 <= f * n_channels) by (nonlinear_arith);
            channel.push(samples[f * n_channels + c]);
        }
        assert(channel@ =~= all[c as int]);
        channels.push(channel);
    }
    assert(contents(channels@) =~= all);
    assert forall|channel: int| 0 <= channel < n_channels implies (#[trigger] channels@[channel])@.len()
        * n_channels == samples@.len() by {
        splitting_takes_every_sample(samples@, n_channels as nat);
        assert(all[channel] == channels@[channel]@);
    }
    assert forall|frame: int, channel: int|
        0 <= channel < n_channels && 0 <= frame && frame * n_channels
            < samples@.len() implies #[trigger] channels@[channel]@[frame] == samples@[frame * n_channels
        + channel] by {
        splitting_takes_every_sample(samples@, n_channels as nat);
        assert(all[channel] == channels@[channel]@);
        assert(all[channel][frame] == samples@[frame * n_channels + channel]);
    }
    (channels, sample_rate)
}

/// The contents of channels are what each channel holds, none left out.
pub proof fn contents_hold_every_channel<T>(channels: Seq<Vec<T>>, channel: int)
    requires
        0 <= channel < channels.len(),
    ensures
        contents(channels).len() == channels.len(),
        contents(channels)[channel] == channels[channel]@,
{
}

/// Channels can be merged as soon as none is shorter than the first, and channels of
/// one length are such channels.
pub proof fn channels_that_can_be_merged<T>(channels: Seq<Seq<T>>)
    ensures
        (forall|c: int| 0 <= c < channels.len() ==> channels[0].len() <= (#[trigger] channels[c]).len())
            <==> first_is_shortest(channels),
        (forall|c: int, d: int|
            0 <= c < channels.len() && 0 <= d < channels.len() ==> (#[trigger] channels[c]).len() == (
            #[trigger] channels[d]).len()) ==> rectangular(channels) && first_is_shortest(channels),
{
}

/// Merging puts the channels side by side: sample `frame` of channel `channel` stands
/// `channel` places after the start of frame number `frame`, and there is nothing but
/// such samples.
pub proof fn merging_puts_channels_side_by_side<T>(channels: Seq<Seq<T>>, frame: int, channel: int)
    requires
        0 <= channel < channels.len(),
        0 <= frame < channels[0].len(),
    ensures
        interleaved(channels).len() == channels[0].len() * channels.len(),
        0 <= frame * channels.len() + channel < interleaved(channels).len(),
        interleaved(channels)[frame * channels.len() + channel] == channels[channel][frame],
{
    let n = channels.len() as int;
    lemma_position(frame, channel, n);
    assert(0 <= frame * n + channel < channels[0].len() * n) by (nonlinear_arith)
        requires
            0 <= channel < n,
            0 <= frame < channels[0].len(),
    ;
}

/// Splitting takes every sample: frame after frame, each channel gets the sample that
/// stands at its place in the frame.
pub proof fn splitting_takes_every_sample<T>(samples: Seq<T>, count: nat)
    requires
        count > 0,
        samples.len() % count == 0,
    ensures
        deinterleaved(samples, count).len() == count,
        forall|channel: int|
            0 <= channel < count ==> (#[trigger] deinterleaved(samples, count)[channel]).len() * count
                == samples.len(),
        forall|frame: int, channel: int|
            0 <= channel < count && 0 <= frame && frame * count < samples.len()
                ==> #[trigger] deinterleaved(samples, count)[channel][frame] == samples[frame * count
                + channel],
{
    let frames = samples.len() / count;
    lemma_fundamental_div_mod(samples.len() as int, count as int);
    assert(frames * count == samples.len()) by (nonlinear_arith)
        requires
            samples.len() == count * frames,
    ;
    assert forall|frame: int, channel: int|
        0 <= channel < count && 0 <= frame && frame * count < samples.len() implies #[trigger] deinterleaved(
        samples,
        count,
    )[channel][frame] == samples[frame * count + channel] by {
        assert(frame < frames) by (nonlinear_arith)
            requires
                frame * count < frames * count,
                count > 0,
        ;
    }
}

/// Interleaving the channels of a file gives its samples back, in the order in
/// which the file holds them.
pub proof fn merging_a_file_restores_its_samples<T>(samples: Seq<T>, count: nat)
    requires
        count > 0,
        samples.len() % count == 0,
    ensures
        interleaved(deinterleaved(samples, count)) == samples,
{
    let n = count as int;
    let frames = samples.len() / count;
    lemma_fundamental_div_mod(samples.len() as int, n);
    assert(frames * n == samples.len()) by (nonlinear_arith)
        requires samples.len() == n * frames;
    let channels = deinterleaved(samples, count);
    assert forall|k: int| 0 <= k < samples.len() implies #[trigger] interleaved(channels)[k] == samples[k] by {
        lemma_fundamental_div_mod(k, n);
        assert(0 <= k / n < frames) by (nonlinear_arith)
            requires
                0 <= k < frames * n,
                n > 0,
        ;
        assert(0 <= k % n < n);
        assert((k / n) * n + k % n == k) by (nonlinear_arith)
            requires k == n * (k / n) + (k % n);
    }
    assert(interleaved(channels) =~= samples);
}

/// Channels of one length come back unchanged from their interleaved form.
pub proof fn splitting_a_merge_restores_the_channels<T>(channels: Seq<Seq<T>>)
    requires
        channels.len() > 0,
        rectangular(channels),
    ensures
        interleaved(channels).len() % channels.len() == 0,
        deinterleaved(interleaved(channels), channels.len()) == channels,
{
    let n = channels.len() as int;
    let frames = channels[0].len() as int;
    lemma_fundamental_div_mod_converse(frames * n, n, frames, 0);
    let split = deinterleaved(interleaved(channels), channels.len());
    assert forall|c: int| 0 <= c < n implies #[trigger] split[c] == channels[c] by {
        assert(channels[c].len() == frames);
        assert forall|f: int| 0 <= f < frames implies #[trigger] split[c][f] == channels[c][f] by {
            lemma_position(f, c, n);
            assert(0 <= f * n + c < frames * n) by (nonlinear_arith)
                requires
                    0 <= c < n,
                    0 <= f < frames,
            ;
        }
        assert(split[c] =~= channels[c]);
    }
    assert(split =~= channels);
}

} // verus!
