//! The live audio: what is recorded, when recording ends, and what is played.

use crate::resample::TARGET_SR;
use std::collections::VecDeque;
use vstd::prelude::*;

verus! {

/// How many samples a buffer of `wanted` samples takes out of a queue of
/// `queued`: the last sample of the queue always stays.
pub open spec fn taken(queued: nat, wanted: nat) -> nat {
    if queued == 0 {
        0
    } else if queued - 1 < wanted {
        (queued - 1) as nat
    } else {
        wanted
    }
}

/// What is played: samples out of the queue, then silence.
pub open spec fn played<T>(queue: Seq<T>, wanted: nat, silence: T) -> Seq<T> {
    Seq::new(
        wanted,
        |i: int|
            if i < taken(queue.len(), wanted) {
                queue[i]
            } else {
                silence
            },
    )
}

/// What stays in the queue.
pub open spec fn left_over<T>(queue: Seq<T>, wanted: nat) -> Seq<T> {
    queue.skip(taken(queue.len(), wanted) as int)
}

/// Fills an output buffer from the queue of samples, with silence where only one
/// sample is left.
pub fn output_callback<T: Copy>(storage: &mut VecDeque<T>, data: &mut [T], silence: T)
    ensures
        final(data)@ == played(old(storage)@, old(data)@.len(), silence),
        final(storage)@ == left_over(old(storage)@, old(data)@.len()),
        final(data)@.len() == old(data)@.len(),
        forall|i: int|
            0 <= i < old(data)@.len() ==> #[trigger] final(data)@[i] == (if i + 1 < old(storage)@.len() {
                old(storage)@[i]
            } else {
                silence
            }),
        old(storage)@.len() == 0 ==> final(storage)@.len() == 0,
        old(storage)@.len() > old(data)@.len() ==> final(storage)@ == old(storage)@.skip(
            old(data)@.len() as int,
        ),
        0 < old(storage)@.len() <= old(data)@.len() ==> final(storage)@ == seq![old(storage)@.last()],
{
    let ghost queue = storage@;
    let n: usize = data.len();
    for i in 0..n
        invariant
            n == data@.len() == old(data)@.len(),
            queue == old(storage)@,
            storage@ == left_over(queue, i as nat),
            forall|k: int| 0 <= k < i ==> #[trigger] data@[k] == played(queue, n as nat, silence)[k],
    {
        if storage.len() > 1 {
            match storage.pop_front() {
                Some(sample) => {
                    data[i] = sample;
                },
                None => {},
            }
        } else {
            data[i] = silence;
        }
        assert(storage@ =~= left_over(queue, (i + 1) as nat));
    }
    assert(data@ =~= played(queue, n as nat, silence));
    proof {
        queue_is_played_up_to_its_last_sample(queue, n as nat, silence);
        queue_keeps_what_was_not_played(queue, n as nat);
    }
}

/// The buffer gets the samples of the queue in their order, all but the last one, and
/// silence behind them.
pub proof fn queue_is_played_up_to_its_last_sample<T>(queue: Seq<T>, wanted: nat, silence: T)
    ensures
        played(queue, wanted, silence).len() == wanted,
        forall|i: int|
            0 <= i < wanted ==> #[trigger] played(queue, wanted, silence)[i] == (if i + 1 < queue.len() {
                queue[i]
            } else {
                silence
            }),
{
}

/// What was not played stays in the queue: everything behind the buffer, where the
/// queue is longer than the buffer, and else its last sample, if it has one.
pub proof fn queue_keeps_what_was_not_played<T>(queue: Seq<T>, wanted: nat)
    ensures
        queue.len() == 0 ==> left_over(queue, wanted).len() == 0,
        queue.len() > wanted ==> left_over(queue, wanted) == queue.skip(wanted as int),
        0 < queue.len() <= wanted ==> left_over(queue, wanted) == seq![queue.last()],
{
    if 0 < queue.len() <= wanted {
        assert(left_over(queue, wanted) =~= seq![queue.last()]);
    }
}

/// Filling two buffers in turn plays what one buffer of both lengths would, and
/// leaves the same in the queue.
pub proof fn consecutive_buffers_play_on<T>(queue: Seq<T>, first: nat, second: nat, silence: T)
    ensures
        played(queue, first, silence) + played(left_over(queue, first), second, silence) == played(
            queue,
            first + second,
            silence,
        ),
        left_over(left_over(queue, first), second) == left_over(queue, first + second),
{
    assert(played(queue, first, silence) + played(left_over(queue, first), second, silence)
        =~= played(queue, first + second, silence));
    assert(left_over(left_over(queue, first), second) =~= left_over(queue, first + second));
}

/// Nothing is lost or reordered: what was taken, followed by what is left, is the
/// queue, and a queue that held a sample still holds its last one.
pub proof fn playing_keeps_the_queue<T>(queue: Seq<T>, wanted: nat, silence: T)
    ensures
        played(queue, wanted, silence).take(taken(queue.len(), wanted) as int) + left_over(
            queue,
            wanted,
        ) == queue,
        queue.len() > 0 ==> left_over(queue, wanted).len() > 0 && left_over(queue, wanted).last()
            == queue.last(),
{
    assert(played(queue, wanted, silence).take(taken(queue.len(), wanted) as int) + left_over(
        queue,
        wanted,
    ) =~= queue);
}

/// How one sample is represented.
#[derive(Debug, Clone, Copy, PartialEq, Eq, Structural)]
pub enum SampleFormat {
    /// A 16 bit signed integer.
    Int16,
    /// A 32 bit signed integer.
    Int32,
    /// A 32 bit floating point number.
    Float32,
    /// A 64 bit floating point number.
    Float64,
}

/// The buffer sizes that a device offers, in frames.
#[derive(Debug, Clone, Copy, PartialEq, Eq, Structural)]
pub enum BufferSizes {
    Range { min: u32, max: u32 },
    Unknown,
}

/// The form in which the microphone is recorded.
#[derive(Debug, Clone, Copy, PartialEq, Eq, Structural)]
pub struct InputFormat {
    pub channels: u16,
    pub sample_rate: u32,
    pub buffer_sizes: BufferSizes,
    pub sample_format: SampleFormat,
}

/// The microphone is recorded in mono, at the rate of every signal, so that it
/// needs no resampling, and in 32 bit floating point samples. Of the device's own
/// form only the buffer sizes are taken.
pub fn input_format(device_sizes: BufferSizes) -> (format: InputFormat)
    ensures
        format == (InputFormat {
            channels: 1,
            sample_rate: TARGET_SR,
            buffer_sizes: device_sizes,
            sample_format: SampleFormat::Float32,
        }),
        format.sample_rate == 16_000,
{
    InputFormat {
        channels: 1,
        sample_rate: TARGET_SR,
        buffer_sizes: device_sizes,
        sample_format: SampleFormat::Float32,
    }
}

/// What to do once the user has asked to stop.
#[derive(Debug, Clone, Copy, PartialEq, Eq, Structural)]
pub enum ClosingStep {
    /// Sleep for so many seconds, and ask again.
    Sleep { seconds: u64 },
    /// End the recording.
    Stop,
}

/// How long recording goes on after the user has asked to stop, in nanoseconds.
pub const RECORD_NANOS: u128 = 3_000_000_000;

/// Recording goes on for three seconds, asked for second by second.
pub fn closing_step(elapsed_nanos: u128) -> (step: ClosingStep)
    ensures
        step == (if elapsed_nanos < RECORD_NANOS {
            ClosingStep::Sleep { seconds: 1 }
        } else {
            ClosingStep::Stop
        }),
        step is Stop <==> elapsed_nanos >= 3_000_000_000,
        step matches ClosingStep::Sleep { seconds } ==> seconds == 1,
{
    if elapsed_nanos < RECORD_NANOS {
        ClosingStep::Sleep { seconds: 1 }
    } else {
        ClosingStep::Stop
    }
}

} // verus!
