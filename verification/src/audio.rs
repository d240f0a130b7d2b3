//! From captured samples to an encoded recording.

use flacenc::component::BitRepr;
use flacenc::error::Verify;
use vstd::prelude::*;

verus! {

/// The sample rate of an encoded recording, in hertz.
pub const TARGET_SAMPLE_RATE: u32 = 16000;

/// The most samples that an encoded recording can hold: their number is
/// written with 36 bits.
pub const MAX_SAMPLES: u64 = 0xf_ffff_ffff;

/// The number of samples that are encoded together.
pub const BLOCK_SIZE: usize = 4096;

/// The fewest bytes that a frame of an encoded recording can have: six of its
/// header, three of a block with one value, two of its checksum.
pub const MIN_FRAME: usize = 11;

/// Adds a block of samples to `buffer` while the record key is held down.
pub fn capture<T: Copy>(is_recording: bool, buffer: &mut Vec<T>, block: &[T])
    ensures
        final(buffer)@ == if is_recording {
            old(buffer)@ + block@
        } else {
            old(buffer)@
        },
{
    if is_recording {
        let mut i: usize = 0;
        while i < block.len()
            invariant
                i <= block@.len(),
                buffer@ == old(buffer)@ + block@.take(i as int),
            decreases block@.len() - i,
        {
            buffer.push(block[i]);
            i = i + 1;
            assert(block@.take(i as int) =~= block@.take(i - 1).push(block@[i - 1]));
        }
        assert(block@.take(block@.len() as int) =~= block@);
    }
}

/// Tells whether the samples of several channels have to be mixed into one.
pub fn needs_mixdown(channels: usize) -> (r: bool)
    ensures
        r == (channels > 1),
{
    channels > 1
}

/// Tells whether samples of the given rate have to be resampled.
pub fn needs_resampling(sample_rate: u32) -> (r: bool)
    ensures
        r == (sample_rate != 16000),
{
    sample_rate != TARGET_SAMPLE_RATE
}

/// Interleaved samples as frames of `channels` samples each; the last frame has
/// what is left.
pub open spec fn frames_of<T>(samples: Seq<T>, channels: nat) -> Seq<Seq<T>>
    decreases samples.len(),
{
    if samples.len() == 0 || channels == 0 {
        Seq::empty()
    } else if samples.len() <= channels {
        seq![samples]
    } else {
        seq![samples.take(channels as int)] + frames_of(samples.skip(channels as int), channels)
    }
}

/// The frames of interleaved samples.
pub fn frames<T: Copy>(samples: &[T], channels: usize) -> (r: Vec<Vec<T>>)
    requires
        channels > 0,
    ensures
        r@.map_values(|frame: Vec<T>| frame@) == frames_of(samples@, channels as nat),
        r@.map_values(|frame: Vec<T>| frame@).flatten() == samples@,
        forall|i: int| 0 <= i < r@.len() - 1 ==> (#[trigger] r@[i])@.len() == channels,
        r@.len() > 0 ==> 0 < r@[r@.len() - 1]@.len() <= channels,
{
    let mut r: Vec<Vec<T>> = Vec::new();
    let total: usize = samples.len();
    let mut pos: usize = 0;
    assert(samples@.skip(0) =~= samples@);
    assert(r@.map_values(|frame: Vec<T>| frame@) + frames_of(samples@, channels as nat)
        =~= frames_of(samples@, channels as nat));
    while pos < total
        invariant
            pos <= total == samples@.len(),
            channels > 0,
            r@.map_values(|frame: Vec<T>| frame@) + frames_of(
                samples@.skip(pos as int),
                channels as nat,
            ) == frames_of(samples@, channels as nat),
        decreases total - pos,
    {
        let size: usize = if total - pos > channels {
            channels
        } else {
            total - pos
        };
        let ghost rest = samples@.skip(pos as int);
        let ghost before = r@.map_values(|frame: Vec<T>| frame@);
        let mut frame: Vec<T> = Vec::new();
        let mut i: usize = 0;
        while i < size
            invariant
                i <= size,
                pos + size <= total == samples@.len(),
                frame@ == samples@.subrange(pos as int, pos + i),
            decreases size - i,
        {
            frame.push(samples[pos + i]);
            i = i + 1;
        }
        proof {
            assert(frame@ =~= rest.take(size as int));
            assert(rest.skip(size as int) =~= samples@.skip(pos + size));
            if rest.len() <= channels {
                assert(rest.take(size as int) =~= rest);
            }
        }
        let ghost view = frame@;
        r.push(frame);
        pos = pos + size;
        proof {
            assert(r@.map_values(|frame: Vec<T>| frame@) =~= before.push(view));
            assert(frames_of(rest, channels as nat) =~= seq![view] + frames_of(
                samples@.skip(pos as int),
                channels as nat,
            ));
            assert(before.push(view) + frames_of(samples@.skip(pos as int), channels as nat)
                =~= before + frames_of(rest, channels as nat));
        }
    }
    assert(samples@.skip(total as int) =~= Seq::<T>::empty());
    assert(r@.map_values(|frame: Vec<T>| frame@) + Seq::<Seq<T>>::empty() =~= r@.map_values(
        |frame: Vec<T>| frame@,
    ));
    proof {
        law_frames(samples@, channels as nat);
        let all = r@.map_values(|frame: Vec<T>| frame@);
        assert forall|i: int| 0 <= i < r@.len() - 1 implies (#[trigger] r@[i])@.len()
            == channels by {
            assert(all[i] == r@[i]@);
        }
        if r@.len() > 0 {
            assert(all.last() == r@[r@.len() - 1]@);
        }
    }
    r
}

/// Samples being picked out of a recording at growing positions.
pub struct Resampler<T> {
    samples: Vec<T>,
    picked: Vec<T>,
}

impl<T: Copy> Resampler<T> {
    /// The samples that are picked from.
    pub closed spec fn samples(self) -> Seq<T> {
        self.samples@
    }

    /// The samples that were picked, in order.
    pub closed spec fn picked(self) -> Seq<T> {
        self.picked@
    }

    /// Nothing picked yet.
    pub fn new(samples: Vec<T>) -> (r: Resampler<T>)
        ensures
            r.samples() == samples@,
            r.picked() == Seq::<T>::empty(),
    {
        Resampler { samples, picked: Vec::new() }
    }

    /// Picks the sample at `position`. Past the end nothing is picked, and the
    /// picking is over.
    pub fn pick(&mut self, position: usize) -> (r: bool)
        ensures
            r == (position < old(self).samples().len()),
            final(self).samples() == old(self).samples(),
            final(self).picked() == if r {
                old(self).picked().push(old(self).samples()[position as int])
            } else {
                old(self).picked()
            },
    {
        if position < self.samples.len() {
            let sample: T = self.samples[position];
            self.picked.push(sample);
            true
        } else {
            false
        }
    }

    /// The samples that were picked.
    pub fn finish(self) -> (r: Vec<T>)
        ensures
            r@ == self.picked(),
    {
        self.picked
    }
}

/// A step of the encoding that failed, with what it said.
#[derive(Debug)]
pub enum FlacError {
    /// The configuration was refused.
    Config(String),
    /// The samples could not be encoded.
    Encode(String),
    /// The stream could not be written out.
    Write(String),
}

/// The number that some bytes stand for, the most significant one first.
pub open spec fn be_value(bytes: Seq<u8>) -> nat
    decreases bytes.len(),
{
    if bytes.len() == 0 {
        0
    } else {
        be_value(bytes.drop_last()) * 256 + bytes.last() as nat
    }
}

/// The checksum that `flacenc` computes of samples read by an encoder with the
/// default configuration.
pub uninterp spec fn flac_checksum(
    samples: Seq<i32>,
    channels: int,
    bits_per_sample: int,
) -> Seq<u8>;

/// The beginning of a FLAC stream of one channel: the marker, then the stream's
/// description, which is the only block of its kind and 34 bytes long. In it stand
/// the smallest and the largest block size, in 16 bits each, and farther on the
/// sample rate in 20 bits, the number of channels less one in 3, the bits per
/// sample less one in 5 and the number of samples in 36.
pub open spec fn describes(
    bytes: Seq<u8>,
    samples: nat,
    bits_per_sample: int,
    sample_rate: int,
) -> bool {
    &&& bytes.len() >= 42
    &&& bytes.subrange(0, 4) == seq![0x66u8, 0x4cu8, 0x61u8, 0x43u8]
    &&& bytes.subrange(4, 8) == seq![0x80u8, 0u8, 0u8, 34u8]
    &&& be_value(bytes.subrange(8, 10)) == BLOCK_SIZE
    &&& be_value(bytes.subrange(10, 12)) == BLOCK_SIZE
    &&& be_value(bytes.subrange(18, 26)) == sample_rate * 0x1000_0000_0000 + (bits_per_sample - 1)
        * 0x10_0000_0000 + samples
}

/// The number of blocks that so many samples fill, the last one perhaps in part.
pub open spec fn blocks_of(samples: nat) -> nat {
    (samples + BLOCK_SIZE - 1) as nat / BLOCK_SIZE as nat
}

/// A frame of a FLAC stream stands at `at`: it begins with the word by which
/// frames are found, of a stream with blocks of one size, then the code of that
/// size, and the codes of one channel and of 16 bits per sample.
pub open spec fn frame_at(bytes: Seq<u8>, at: int) -> bool {
    &&& 0 <= at
    &&& at + MIN_FRAME <= bytes.len()
    &&& bytes[at] == 0xff
    &&& bytes[at + 1] == 0xf8
    &&& bytes[at + 2] == 0xc0
    &&& bytes[at + 3] == 0x08
}

/// Frames stand at `starts`, in order and apart, the first of them at once behind
/// the description of the stream.
pub open spec fn are_frames(bytes: Seq<u8>, starts: Seq<int>) -> bool {
    &&& starts.len() > 0 ==> starts[0] == 42
    &&& forall|i: int| 0 <= i < starts.len() ==> frame_at(bytes, #[trigger] starts[i])
    &&& forall|i: int, j: int|
        0 <= i < j < starts.len() ==> #[trigger] starts[i] + MIN_FRAME <= #[trigger] starts[j]
}

/// The stream holds `count` frames behind its description.
pub open spec fn holds_frames(bytes: Seq<u8>, count: nat) -> bool {
    exists|starts: Seq<int>| #[trigger] are_frames(bytes, starts) && starts.len() == count
}

/// A stream that holds frames has room for them: it is not cut off behind its
/// description, and the more blocks there are the longer it is at the least.
pub proof fn law_frames_take_room(bytes: Seq<u8>, count: nat)
    requires
        holds_frames(bytes, count),
        count > 0,
    ensures
        frame_at(bytes, 42),
        bytes[42] == 0xff && bytes[43] == 0xf8,
        bytes.len() >= 42 + MIN_FRAME * count,
        bytes.len() >= 42 + 11 * count,
{
    let starts = choose|starts: Seq<int>| #[trigger]
        are_frames(bytes, starts) && starts.len() == count;
    assert(frame_at(bytes, starts[0]));
    lemma_frame_starts(bytes, starts, count - 1);
    assert(frame_at(bytes, starts[count - 1]));
}

proof fn lemma_frame_starts(bytes: Seq<u8>, starts: Seq<int>, i: int)
    requires
        are_frames(bytes, starts),
        0 <= i < starts.len(),
    ensures
        starts[i] >= 42 + MIN_FRAME * i,
    decreases i,
{
    if i > 0 {
        lemma_frame_starts(bytes, starts, i - 1);
        assert(starts[i - 1] + MIN_FRAME <= starts[i]);
    }
}

/// `flacenc::encode_with_fixed_block_size` on a `MemSource` of the samples, with
/// the default configuration and its block size, and the resulting stream
/// written to a `ByteSink`. The stream begins with its marker and a description
/// of the samples, which ends with their checksum, and at once behind it stand
/// the frames, one for each block, of which the first has the number zero. The
/// other bytes, among them those that hold the samples, are not the same in every
/// run, and nothing is said of them: the encoder works with floating-point numbers and
/// in several threads, and the unused end of the last block holds what an
/// earlier block left there. The default configuration is valid and writing to
/// memory does not fail, so an error can only come from the encoding; whether
/// it does, and whether the encoding comes to an end, depends on the threads
/// that the machine and its environment grant.
#[verifier::external_body]
fn encode_flac(
    samples: &[i32],
    channels: usize,
    bits_per_sample: usize,
    sample_rate: usize,
) -> (r: Result<Vec<u8>, FlacError>)
    requires
        channels == 1,
        bits_per_sample == 16,
        sample_rate <= 96_000,
        0 < samples@.len() <= MAX_SAMPLES,
        forall|i: int| 0 <= i < samples@.len() ==> -0x8000 <= #[trigger] samples@[i] <= 0x7fff,
    ensures
        r matches Ok(bytes) ==> describes(
            bytes@,
            samples@.len(),
            bits_per_sample as int,
            sample_rate as int,
        ),
        r matches Ok(bytes) ==> bytes@.subrange(26, 42) == flac_checksum(
            samples@,
            channels as int,
            bits_per_sample as int,
        ),
        r matches Ok(bytes) ==> holds_frames(bytes@, blocks_of(samples@.len())) && bytes@[46] == 0,
        r matches Err(e) ==> e is Encode,
{
    let config = flacenc::config::Encoder::default()
        .into_verified()
        .map_err(|e| FlacError::Config(format!("{:?}", e)))?;
    let source =
        flacenc::source::MemSource::from_samples(samples, channels, bits_per_sample, sample_rate);
    let stream = flacenc::encode_with_fixed_block_size(&config, source, config.block_size)
        .map_err(|e| FlacError::Encode(format!("{:?}", e)))?;
    let mut sink = flacenc::bitsink::ByteSink::new();
    stream.write(&mut sink).map_err(|e| FlacError::Write(format!("{:?}", e)))?;
    Ok(sink.as_slice().to_vec())
}

/// Samples of 16 bits as the encoder takes them.
pub open spec fn widened(samples: Seq<i16>) -> Seq<i32> {
    samples.map_values(|s: i16| s as i32)
}

/// The encoder takes as many samples as the recording has, and each of them has
/// the value that it has in the recording. So recordings that are handed to the
/// encoder alike are alike.
pub proof fn law_widened(samples: Seq<i16>, other: Seq<i16>)
    ensures
        widened(samples).len() == samples.len(),
        forall|i: int| 0 <= i < samples.len() ==> #[trigger] widened(samples)[i] as int
            == samples[i] as int,
        widened(samples) == widened(other) ==> samples == other,
        widened(samples + other) == widened(samples) + widened(other),
{
    assert(widened(samples + other) =~= widened(samples) + widened(other));
    if widened(samples) == widened(other) {
        assert(samples.len() == widened(other).len());
        assert forall|i: int| 0 <= i < samples.len() implies samples[i] == other[i] by {
            assert(widened(samples)[i] == widened(other)[i]);
        }
        assert(samples =~= other);
    }
}

/// A description gives the sample rate, the channels, the bits per sample and the
/// number of samples each in bits of its own.
pub proof fn law_description(
    bytes: Seq<u8>,
    samples: nat,
    bits_per_sample: int,
    sample_rate: int,
)
    requires
        describes(bytes, samples, bits_per_sample, sample_rate),
        samples <= MAX_SAMPLES,
        1 <= bits_per_sample <= 32,
        0 <= sample_rate,
    ensures
        bytes.len() >= 42,
        bytes[0] == 0x66 && bytes[1] == 0x4c && bytes[2] == 0x61 && bytes[3] == 0x43,
        be_value(bytes.subrange(18, 26)) / 0x1000_0000_0000 == sample_rate,
        be_value(bytes.subrange(18, 26)) / 0x200_0000_0000 % 8 == 0,
        be_value(bytes.subrange(18, 26)) / 0x10_0000_0000 % 32 == bits_per_sample - 1,
        be_value(bytes.subrange(18, 26)) % 0x10_0000_0000 == samples,
{
    let v = be_value(bytes.subrange(18, 26)) as int;
    let b = bits_per_sample - 1;
    let s = samples as int;
    assert(v == sample_rate * 0x1000_0000_0000 + b * 0x10_0000_0000 + s);
    assert(bytes.subrange(0, 4)[0] == bytes[0]);
    assert(bytes.subrange(0, 4)[1] == bytes[1]);
    assert(bytes.subrange(0, 4)[2] == bytes[2]);
    assert(bytes.subrange(0, 4)[3] == bytes[3]);
}

/// One byte more makes a number two hundred and fifty-six times as large and adds
/// the byte.
pub proof fn law_be_value(bytes: Seq<u8>, byte: u8)
    ensures
        be_value(Seq::empty()) == 0,
        be_value(bytes.push(byte)) == be_value(bytes) * 256 + byte,
{
    assert(bytes.push(byte).drop_last() =~= bytes);
}

/// The blocks have room for all samples, and one block less would not.
pub proof fn law_blocks(samples: nat)
    ensures
        blocks_of(samples) * 4096 >= samples,
        samples > 0 ==> (blocks_of(samples) - 1) * 4096 < samples,
        samples == 0 ==> blocks_of(samples) == 0,
{
}

/// Encodes the samples of a recording, one channel at the target rate, as a
/// FLAC stream: its description, and a frame for each block of samples. A
/// recording without samples is no bytes at all.
pub fn encode_recording(samples: &[i16]) -> (r: Result<Vec<u8>, FlacError>)
    requires
        samples@.len() <= MAX_SAMPLES,
    ensures
        samples@.len() == 0 ==> r is Ok && r->Ok_0@.len() == 0,
        samples@.len() > 0 ==> (r matches Ok(bytes) ==> describes(
            bytes@,
            samples@.len(),
            16,
            16000,
        ) && bytes@.subrange(26, 42) == flac_checksum(widened(samples@), 1, 16)),
        samples@.len() > 0 ==> (r matches Ok(bytes) ==> holds_frames(
            bytes@,
            blocks_of(samples@.len()),
        ) && frame_at(bytes@, 42) && bytes@[46] == 0 && bytes@.len() >= 42 + MIN_FRAME * blocks_of(
            samples@.len(),
        )),
        samples@.len() > 0 ==> (r matches Ok(bytes) ==> exists|wide: Seq<i32>|
            {
                &&& bytes@.subrange(26, 42) == #[trigger] flac_checksum(wide, 1, 16)
                &&& wide.len() == samples@.len()
                &&& forall|i: int|
                    0 <= i < samples@.len() ==> #[trigger] wide[i] as int == samples@[i] as int
            }),
        samples@.len() > 0 ==> (r matches Ok(bytes) ==> be_value(bytes@.subrange(18, 26)) == 16000
            * 0x1000_0000_0000 + 15 * 0x10_0000_0000 + samples@.len()),
        r matches Err(e) ==> e is Encode,
{
    if samples.len() == 0 {
        return Ok(Vec::new());
    }
    let mut wide: Vec<i32> = Vec::new();
    let mut i: usize = 0;
    while i < samples.len()
        invariant
            i <= samples@.len(),
            wide@.len() == i,
            forall|j: int| 0 <= j < i ==> #[trigger] wide@[j] == samples@[j] as i32,
        decreases samples@.len() - i,
    {
        wide.push(samples[i] as i32);
        i = i + 1;
    }
    assert(wide@ =~= widened(samples@));
    let r: Result<Vec<u8>, FlacError> = encode_flac(
        wide.as_slice(),
        1,
        16,
        TARGET_SAMPLE_RATE as usize,
    );
    proof {
        if r is Ok {
            law_frames_take_room(r->Ok_0@, blocks_of(samples@.len()));
        }
    }
    r
}

/// The frames of a recording hold its samples, in order, and each of them has
/// as many as there are channels, but for the last one, which has at least one.
pub proof fn law_frames<T>(samples: Seq<T>, channels: nat)
    requires
        channels > 0,
    ensures
        frames_of(samples, channels).flatten() == samples,
        samples.len() == 0 ==> frames_of(samples, channels).len() == 0,
        forall|i: int|
            0 <= i < frames_of(samples, channels).len() - 1 ==> (#[trigger] frames_of(
                samples,
                channels,
            )[i]).len() == channels,
        samples.len() > 0 ==> frames_of(samples, channels).len() > 0 && 0 < frames_of(
            samples,
            channels,
        ).last().len() <= channels,
    decreases samples.len(),
{
    let all = frames_of(samples, channels);
    if samples.len() == 0 {
        assert(all.flatten() =~= samples);
    } else if samples.len() <= channels {
        assert(all.drop_first() =~= Seq::empty());
        assert(all.drop_first().flatten() =~= Seq::empty());
        assert(all.flatten() =~= samples);
    } else {
        let rest = samples.skip(channels as int);
        law_frames(rest, channels);
        assert(all.drop_first() =~= frames_of(rest, channels));
        assert(all.flatten() =~= samples);
        assert forall|i: int| 0 <= i < all.len() - 1 implies (#[trigger] all[i]).len()
            == channels by {
            if i > 0 {
                assert(all[i] == frames_of(rest, channels)[i - 1]);
            }
        }
        assert(all.last() == frames_of(rest, channels).last());
    }
}

} // verus!
