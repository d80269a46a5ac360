//! WAV files held in memory, written with the `hound` crate.

use vstd::arithmetic::power2::pow2;
use vstd::prelude::*;

verus! {

// ---------------------------------------------------------------------------------------------
// The file format
// ---------------------------------------------------------------------------------------------

/// The low 16 bits of `x`, least significant byte first.
pub open spec fn le16(x: int) -> Seq<u8> {
    seq![(x % 256) as u8, (x / 256 % 256) as u8]
}

/// The low 32 bits of `x`, least significant byte first.
pub open spec fn le32(x: int) -> Seq<u8> {
    le16(x) + le16(x / 65536)
}

/// The samples one after the other, 16 bits each.
pub open spec fn sample_bytes(samples: Seq<i16>) -> Seq<u8>
    decreases samples.len(),
{
    if samples.len() == 0 {
        seq![]
    } else {
        sample_bytes(samples.drop_last()) + le16(samples.last() as int)
    }
}

/// The fields that every format description has: channels, samples per second, bytes per second,
/// bytes per frame.
pub open spec fn stream_fields(sample_rate: int, channels: int) -> Seq<u8> {
    le16(channels) + le32(sample_rate) + le32(sample_rate * 2 * channels) + le16(2 * channels)
}

/// One bit for each channel that has a loudspeaker: at most eighteen have one.
pub open spec fn speakers(channels: int) -> int {
    pow2((if channels > 18 { 18 } else { channels }) as nat) - 1
}

/// The identifier of integer samples in the extensible description.
pub open spec fn integer_samples() -> Seq<u8> {
    seq![0x01, 0x00, 0x00, 0x00, 0x00, 0x00, 0x10, 0x00, 0x80, 0x00, 0x00, 0xaa, 0x00, 0x38, 0x9b,
        0x71]
}

/// The format description, after its length: the plain one for one or two channels, the
/// extensible one for more.
pub open spec fn format_chunk(sample_rate: int, channels: int) -> Seq<u8> {
    if channels <= 2 {
        le32(16) + le16(1) + stream_fields(sample_rate, channels) + le16(16)
    } else {
        le32(40) + le16(0xfffe) + stream_fields(sample_rate, channels) + le16(16) + le16(22)
            + le16(16) + le32(speakers(channels)) + integer_samples()
    }
}

/// A WAV file with 16-bit integer samples: the word `RIFF`, the length of what follows, and then
/// `WAVE`, the format after `fmt `, and the samples after `data` and their length.
pub open spec fn wav_file(samples: Seq<i16>, sample_rate: int, channels: int) -> Seq<u8> {
    let data = sample_bytes(samples);
    let body = seq![0x57u8, 0x41, 0x56, 0x45] + seq![0x66u8, 0x6d, 0x74, 0x20] + format_chunk(
        sample_rate,
        channels,
    ) + seq![0x64u8, 0x61, 0x74, 0x61] + le32(data.len() as int) + data;
    seq![0x52u8, 0x49, 0x46, 0x46] + le32(body.len() as int) + body
}

/// Where the samples of a file start.
pub open spec fn data_start(channels: int) -> int {
    if channels <= 2 {
        44
    } else {
        68
    }
}

/// Whether a WAV file can hold a stream of this kind: its rates and its length fit their fields.
pub open spec fn encodable(samples: nat, sample_rate: int, channels: int) -> bool {
    &&& sample_rate > 0
    &&& channels > 0
    &&& sample_rate * 2 * channels <= u32::MAX
    &&& samples * 2 + data_start(channels) - 8 <= u32::MAX
}

// ---------------------------------------------------------------------------------------------
// The writer
// ---------------------------------------------------------------------------------------------

/// The errors of `hound`.
#[verifier::external_type_specification]
#[verifier::external_body]
pub struct ExHoundError(hound::Error);

/// A WAV file that is being written into a byte vector: a `hound::WavWriter`.
#[verifier::external_body]
pub struct WavFile<'a> {
    writer: hound::WavWriter<std::io::Cursor<&'a mut Vec<u8>>>,
}

/// The samples that a writer has taken so far.
pub uninterp spec fn taken(w: WavFile<'_>) -> Seq<i16>;

/// The sample rate and the number of channels that a writer was made with.
pub uninterp spec fn stream_of(w: WavFile<'_>) -> (u32, u16);

/// What the vector behind a writer holds when the writer has let go of it.
pub uninterp spec fn sink(w: WavFile<'_>) -> Seq<u8>;

/// `hound::WavWriter::new` for 16-bit integer samples, on an empty vector. It succeeds: that width
/// is one of those that `hound` writes, and a vector in memory takes every byte. The writer has
/// taken no sample yet, and what the vector holds in the end is what the writer leaves in it. A
/// rate of zero, or a number of bytes per second that 32 bits do not hold, would make it panic.
#[verifier::external_body]
fn open_wav<'a>(bytes: &'a mut Vec<u8>, sample_rate: u32, channels: u16) -> (r: Result<
    WavFile<'a>,
    hound::Error,
>)
    requires
        old(bytes)@.len() == 0,
        sample_rate > 0,
        channels > 0,
        sample_rate * 2 * channels <= u32::MAX,
    ensures
        r is Ok,
        taken(r->Ok_0) == Seq::<i16>::empty(),
        stream_of(r->Ok_0) == (sample_rate, channels),
        sink(r->Ok_0) == final(bytes)@,
{
    hound::WavWriter::new(
        std::io::Cursor::new(bytes),
        hound::WavSpec {
            channels,
            sample_rate,
            bits_per_sample: 16,
            sample_format: hound::SampleFormat::Int,
        },
    ).map(|writer| WavFile { writer })
}

/// `hound::WavWriter::write_sample` of a 16-bit sample. It succeeds, since the sample has the
/// width that the writer was made for, and adds the sample to those taken. A length that 32 bits
/// do not hold would make it panic.
#[verifier::external_body]
fn add_sample(w: &mut WavFile<'_>, sample: i16) -> (r: Result<(), hound::Error>)
    requires
        taken(*old(w)).len() * 2 + 2 <= u32::MAX,
    ensures
        r is Ok,
        taken(*final(w)) == taken(*old(w)).push(sample),
        stream_of(*final(w)) == stream_of(*old(w)),
        sink(*final(w)) == sink(*old(w)),
{
    w.writer.write_sample(sample)
}

/// `hound::WavWriter::finalize`. It writes the two lengths into the header, after which the vector
/// holds the file with the samples taken. Only then does it report, as an error, that the last
/// frame lacks samples. No channel at all, or a length that 32 bits do not hold, would make it
/// panic.
#[verifier::external_body]
fn close_wav(w: WavFile<'_>) -> (r: Result<(), hound::Error>)
    requires
        stream_of(w).1 > 0,
        taken(w).len() * 2 + data_start(stream_of(w).1 as int) - 8 <= u32::MAX,
    ensures
        match r {
            Ok(_) => taken(w).len() % (stream_of(w).1 as nat) == 0 && sink(w) == wav_file(
                taken(w),
                stream_of(w).0 as int,
                stream_of(w).1 as int,
            ),
            Err(_) => taken(w).len() % (stream_of(w).1 as nat) != 0 && sink(w) == wav_file(
                taken(w),
                stream_of(w).0 as int,
                stream_of(w).1 as int,
            ),
        },
{
    w.writer.finalize()
}

/// Encodes 16-bit samples as a WAV file in memory. Samples that do not fill the last frame are
/// kept.
pub fn encode_wav_bytes(samples: &[i16], sample_rate: u32, channels: u16) -> (bytes: Vec<u8>)
    requires
        encodable(samples@.len(), sample_rate as int, channels as int),
    ensures
        bytes@ == wav_file(samples@, sample_rate as int, channels as int),
{
    let mut bytes: Vec<u8> = Vec::new();
    if let Ok(mut file) = open_wav(&mut bytes, sample_rate, channels) {
        let ghost held = sink(file);
        let mut i: usize = 0;
        while i < samples.len()
            invariant
                i <= samples@.len(),
                encodable(samples@.len(), sample_rate as int, channels as int),
                taken(file) == samples@.take(i as int),
                stream_of(file) == (sample_rate, channels),
                sink(file) == held,
            decreases samples@.len() - i,
        {
            let _ = add_sample(&mut file, samples[i]);
            assert(samples@.take(i + 1) == samples@.take(i as int).push(samples@[i as int]));
            i = i + 1;
        }
        assert(samples@.take(i as int) == samples@);
        let _ = close_wav(file);
    }
    bytes
}

/// Whether a WAV file can hold that many samples of a stream of this kind.
pub fn can_encode(samples: usize, sample_rate: u32, channels: u16) -> (b: bool)
    ensures
        b == encodable(samples as nat, sample_rate as int, channels as int),
{
    proof {
        assert(sample_rate * 2 * channels <= 0xffff_ffff * 2 * 0xffff) by (nonlinear_arith)
            requires
                0 <= sample_rate <= 0xffff_ffff,
                0 <= channels <= 0xffff,
        ;
    }
    let bytes_per_second: u64 = (sample_rate as u64) * 2 * (channels as u64);
    let header: u128 = if channels <= 2 {
        36
    } else {
        60
    };
    sample_rate > 0 && channels > 0 && bytes_per_second <= u32::MAX as u64 && (samples as u128) * 2
        + header <= u32::MAX as u128
}

// ---------------------------------------------------------------------------------------------
// Reading a file back
// ---------------------------------------------------------------------------------------------

/// The unsigned number in the two bytes at `at`.
pub open spec fn read16(bytes: Seq<u8>, at: int) -> int {
    bytes[at] + 256 * bytes[at + 1]
}

/// The unsigned number in the four bytes at `at`.
pub open spec fn read32(bytes: Seq<u8>, at: int) -> int {
    bytes[at] + 256 * bytes[at + 1] + 65536 * bytes[at + 2] + 16777216 * bytes[at + 3]
}

/// The signed number in the two bytes at `at`.
pub open spec fn read_sample(bytes: Seq<u8>, at: int) -> int {
    let low = bytes[at] + 256 * bytes[at + 1];
    if low < 32768 {
        low
    } else {
        low - 65536
    }
}

proof fn lemma_sample_bytes(samples: Seq<i16>, k: int)
    requires
        0 <= k < samples.len(),
    ensures
        sample_bytes(samples).len() == 2 * samples.len(),
        read_sample(sample_bytes(samples), 2 * k) == samples[k],
    decreases samples.len(),
{
    let rest = samples.drop_last();
    lemma_sample_bytes_len(rest);
    let last = samples.last() as int;
    assert(sample_bytes(samples) == sample_bytes(rest) + le16(last));
    if k == rest.len() {
        assert(sample_bytes(samples)[2 * k] == (last % 256) as u8);
        assert(sample_bytes(samples)[2 * k + 1] == (last / 256 % 256) as u8);
        assert(-32768 <= last < 32768);
        assert(last % 256 + 256 * (last / 256 % 256) == if last >= 0 { last } else { last + 65536 });
    } else {
        lemma_sample_bytes(rest, k);
        assert(rest[k] == samples[k]);
        assert(sample_bytes(samples)[2 * k] == sample_bytes(rest)[2 * k]);
        assert(sample_bytes(samples)[2 * k + 1] == sample_bytes(rest)[2 * k + 1]);
    }
}

proof fn lemma_sample_bytes_len(samples: Seq<i16>)
    ensures
        sample_bytes(samples).len() == 2 * samples.len(),
    decreases samples.len(),
{
    if samples.len() > 0 {
        lemma_sample_bytes_len(samples.drop_last());
    }
}

proof fn lemma_le32(x: int)
    requires
        0 <= x <= u32::MAX,
    ensures
        le32(x).len() == 4,
        read32(le32(x), 0) == x,
{
    let y = x / 65536;
    assert(le32(x)[2] == (y % 256) as u8);
    assert(le32(x)[3] == (y / 256 % 256) as u8);
    assert(0 <= y < 65536);
}

proof fn lemma_field16(file: Seq<u8>, at: int, x: int)
    requires
        0 <= x <= u16::MAX,
        0 <= at <= file.len() - 2,
        file.subrange(at, at + 2) == le16(x),
    ensures
        read16(file, at) == x,
{
    let field = file.subrange(at, at + 2);
    assert(file[at] == field[0] && file[at + 1] == field[1]);
}

proof fn lemma_field32(file: Seq<u8>, at: int, x: int)
    requires
        0 <= x <= u32::MAX,
        0 <= at <= file.len() - 4,
        file.subrange(at, at + 4) == le32(x),
    ensures
        read32(file, at) == x,
{
    lemma_le32(x);
    let field = file.subrange(at, at + 4);
    assert(file[at] == field[0] && file[at + 1] == field[1] && file[at + 2] == field[2] && file[at
        + 3] == field[3]);
}

/// Where the fields stand that every format description has.
proof fn lemma_stream_fields(sample_rate: int, channels: int)
    ensures
        ({
            let fields = stream_fields(sample_rate, channels);
            &&& fields.len() == 12
            &&& fields.subrange(0, 2) == le16(channels)
            &&& fields.subrange(2, 6) == le32(sample_rate)
            &&& fields.subrange(6, 10) == le32(sample_rate * 2 * channels)
            &&& fields.subrange(10, 12) == le16(2 * channels)
        }),
{
}

/// Where the parts of a format description stand.
proof fn lemma_format_chunk(sample_rate: int, channels: int)
    ensures
        ({
            let format = format_chunk(sample_rate, channels);
            &&& format.len() == data_start(channels) - 24
            &&& format.subrange(0, 4) == le32(data_start(channels) - 28)
            &&& format.subrange(4, 6) == le16(if channels <= 2 { 1 } else { 0xfffe })
            &&& format.subrange(6, 18) == stream_fields(sample_rate, channels)
            &&& format.subrange(18, 20) == le16(16)
            &&& channels > 2 ==> format.subrange(28, 44) == integer_samples()
        }),
{
    lemma_stream_fields(sample_rate, channels);
}

/// Where the parts of a file stand.
proof fn lemma_wav_file(samples: Seq<i16>, sample_rate: int, channels: int)
    ensures
        ({
            let file = wav_file(samples, sample_rate, channels);
            let start = data_start(channels);
            let data = sample_bytes(samples);
            &&& file.len() == start + data.len()
            &&& file.subrange(0, 4) == seq![0x52u8, 0x49, 0x46, 0x46]
            &&& file.subrange(4, 8) == le32(file.len() - 8)
            &&& file.subrange(8, 12) == seq![0x57u8, 0x41, 0x56, 0x45]
            &&& file.subrange(12, 16) == seq![0x66u8, 0x6d, 0x74, 0x20]
            &&& file.subrange(16, start - 8) == format_chunk(sample_rate, channels)
            &&& file.subrange(start - 8, start - 4) == seq![0x64u8, 0x61, 0x74, 0x61]
            &&& file.subrange(start - 4, start) == le32(data.len() as int)
            &&& file.skip(start) == data
        }),
{
    lemma_format_chunk(sample_rate, channels);
}

/// The header of a WAV file gives back what the file was made with, also where it holds no samples:
/// the words that mark its parts, the length of what follows, the number of channels, the rates, 16
/// bits for a sample, and the length of the samples. Integer samples are marked in the plain
/// description, or in the extensible one where there are more than two channels.
pub proof fn law_wav_header_reads_back(samples: Seq<i16>, sample_rate: int, channels: int)
    requires
        encodable(samples.len(), sample_rate, channels),
        channels <= u16::MAX,
    ensures
        ({
            let file = wav_file(samples, sample_rate, channels);
            let start = data_start(channels);
            &&& file.len() == start + 2 * samples.len()
            &&& file.subrange(0, 4) == seq![0x52u8, 0x49, 0x46, 0x46]
            &&& read32(file, 4) == file.len() - 8
            &&& file.subrange(8, 12) == seq![0x57u8, 0x41, 0x56, 0x45]
            &&& file.subrange(12, 16) == seq![0x66u8, 0x6d, 0x74, 0x20]
            &&& read32(file, 16) == start - 28
            &&& read16(file, 20) == if channels <= 2 {
                1int
            } else {
                0xfffe
            }
            &&& read16(file, 22) == channels
            &&& read32(file, 24) == sample_rate
            &&& read32(file, 28) == sample_rate * 2 * channels
            &&& channels < 32768 ==> read16(file, 32) == 2 * channels
            &&& read16(file, 34) == 16
            &&& channels > 2 ==> file.subrange(44, 60) == integer_samples()
            &&& file.subrange(start - 8, start - 4) == seq![0x64u8, 0x61, 0x74, 0x61]
            &&& read32(file, start - 4) == 2 * samples.len()
        }),
{
    let file = wav_file(samples, sample_rate, channels);
    let start = data_start(channels);
    let format = format_chunk(sample_rate, channels);
    let fields = stream_fields(sample_rate, channels);
    lemma_wav_file(samples, sample_rate, channels);
    lemma_format_chunk(sample_rate, channels);
    lemma_stream_fields(sample_rate, channels);
    lemma_sample_bytes_len(samples);
    assert(sample_rate <= sample_rate * 2 * channels) by (nonlinear_arith)
        requires
            sample_rate > 0,
            channels > 0,
    ;
    lemma_field32(file, 4, file.len() - 8);
    assert(file.subrange(16, 20) == format.subrange(0, 4));
    lemma_field32(file, 16, start - 28);
    assert(file.subrange(20, 22) == format.subrange(4, 6));
    lemma_field16(file, 20, if channels <= 2 { 1 } else { 0xfffe });
    assert(file.subrange(22, 34) == format.subrange(6, 18));
    assert(file.subrange(22, 24) == fields.subrange(0, 2));
    lemma_field16(file, 22, channels);
    assert(file.subrange(24, 28) == fields.subrange(2, 6));
    lemma_field32(file, 24, sample_rate);
    assert(file.subrange(28, 32) == fields.subrange(6, 10));
    lemma_field32(file, 28, sample_rate * 2 * channels);
    assert(file.subrange(32, 34) == fields.subrange(10, 12));
    if channels < 32768 {
        lemma_field16(file, 32, 2 * channels);
    }
    assert(file.subrange(34, 36) == format.subrange(18, 20));
    lemma_field16(file, 34, 16);
    if channels > 2 {
        assert(file.subrange(44, 60) == format.subrange(28, 44));
    }
    lemma_field32(file, start - 4, 2 * samples.len() as int);
}

/// A WAV file gives back its samples: the `k`-th sample read is the `k`-th written.
pub proof fn law_wav_reads_back(samples: Seq<i16>, sample_rate: int, channels: int, k: int)
    requires
        encodable(samples.len(), sample_rate, channels),
        0 <= k < samples.len(),
    ensures
        read_sample(wav_file(samples, sample_rate, channels), data_start(channels) + 2 * k)
            == samples[k],
{
    let file = wav_file(samples, sample_rate, channels);
    let start = data_start(channels);
    lemma_sample_bytes(samples, k);
    lemma_wav_file(samples, sample_rate, channels);
    assert(file.skip(start)[2 * k] == file[start + 2 * k]);
    assert(file.skip(start)[2 * k + 1] == file[start + 2 * k + 1]);
}

} // verus!
