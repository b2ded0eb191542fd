//! The WAV container: signed 16-bit PCM samples and their sample rate,
//! decoded from and encoded to the bytes of a file by `hound`.
//!
//! Files are written as mono, 16 bits per sample, integer PCM, with the
//! plain 16-byte `fmt ` chunk: a 44-byte header followed by the samples in
//! little-endian order. `wav_image` states those bytes exactly, and
//! `canonical_audio` reads such bytes back.
use vstd::prelude::*;

verus! {

pub open spec fn byte0(v: int) -> u8 {
    (v % 256) as u8
}

pub open spec fn byte1(v: int) -> u8 {
    ((v / 256) % 256) as u8
}

pub open spec fn byte2(v: int) -> u8 {
    ((v / 65536) % 256) as u8
}

pub open spec fn byte3(v: int) -> u8 {
    ((v / 16777216) % 256) as u8
}

/// The bit pattern of a sample, as an unsigned 16-bit number.
pub open spec fn unsigned16(s: i16) -> int {
    if s < 0 {
        s + 65536
    } else {
        s as int
    }
}

/// The 44-byte header of a mono 16-bit PCM file of `n` samples:
/// `RIFF`, the RIFF size, `WAVE`, the `fmt ` chunk (format 1, one channel,
/// the sample rate, the byte rate, block alignment 2, 16 bits per sample),
/// then `data` and the data size.
#[verifier::opaque]
pub open spec fn wav_header(rate: u32, n: nat) -> Seq<u8> {
    let riff_size: int = 36 + 2 * n as int;
    let byte_rate: int = 2 * rate;
    let data_size: int = 2 * n as int;
    seq![
        0x52u8, 0x49u8, 0x46u8, 0x46u8,
        byte0(riff_size), byte1(riff_size), byte2(riff_size), byte3(riff_size),
        0x57u8, 0x41u8, 0x56u8, 0x45u8,
        0x66u8, 0x6du8, 0x74u8, 0x20u8,
        16u8, 0u8, 0u8, 0u8,
        1u8, 0u8,
        1u8, 0u8,
        byte0(rate as int), byte1(rate as int), byte2(rate as int), byte3(rate as int),
        byte0(byte_rate), byte1(byte_rate), byte2(byte_rate), byte3(byte_rate),
        2u8, 0u8,
        16u8, 0u8,
        0x64u8, 0x61u8, 0x74u8, 0x61u8,
        byte0(data_size), byte1(data_size), byte2(data_size), byte3(data_size),
    ]
}

/// The samples, two bytes each, least significant byte first.
pub open spec fn sample_bytes(samples: Seq<i16>) -> Seq<u8> {
    Seq::new(
        2 * samples.len(),
        |i: int|
            if i % 2 == 0 {
                byte0(unsigned16(samples[i / 2]))
            } else {
                byte1(unsigned16(samples[i / 2]))
            },
    )
}

/// The bytes of a mono 16-bit PCM file holding `samples` at `rate`.
pub open spec fn wav_image(rate: u32, samples: Seq<i16>) -> Seq<u8> {
    wav_header(rate, samples.len()) + sample_bytes(samples)
}

pub open spec fn read_u16(b: Seq<u8>, at: int) -> int {
    b[at] + 256 * b[at + 1]
}

pub open spec fn read_u32(b: Seq<u8>, at: int) -> int {
    b[at] + 256 * b[at + 1] + 65536 * b[at + 2] + 16777216 * b[at + 3]
}

pub open spec fn read_sample(b: Seq<u8>, at: int) -> i16 {
    let u = read_u16(b, at);
    if u >= 32768 {
        (u - 65536) as i16
    } else {
        u as i16
    }
}

/// `h` is the header of a mono 16-bit PCM file with a 16-byte `fmt ` chunk
/// whose data chunk holds `data_size` bytes: the header `wav_header` states.
pub open spec fn is_pcm16_mono_header(h: Seq<u8>, data_size: int) -> bool {
    &&& h.len() == 44
    &&& h[0] == 0x52 && h[1] == 0x49 && h[2] == 0x46 && h[3] == 0x46
    &&& read_u32(h, 4) == 36 + data_size
    &&& h[8] == 0x57 && h[9] == 0x41 && h[10] == 0x56 && h[11] == 0x45
    &&& h[12] == 0x66 && h[13] == 0x6d && h[14] == 0x74 && h[15] == 0x20
    &&& read_u32(h, 16) == 16
    &&& read_u16(h, 20) == 1
    &&& read_u16(h, 22) == 1
    &&& read_u32(h, 28) == 2 * read_u32(h, 24)
    &&& read_u16(h, 32) == 2
    &&& read_u16(h, 34) == 16
    &&& h[36] == 0x64 && h[37] == 0x61 && h[38] == 0x74 && h[39] == 0x61
    &&& read_u32(h, 40) == data_size
}

/// `b` is a header as above followed by an even number of data bytes, the
/// data chunk running to the end: the layout that `wav_image` produces.
pub open spec fn is_pcm16_mono(b: Seq<u8>) -> bool {
    &&& b.len() >= 44
    &&& (b.len() - 44) % 2 == 0
    &&& is_pcm16_mono_header(b.take(44), b.len() - 44)
}

/// The sample rate and samples of bytes laid out by `is_pcm16_mono`.
pub open spec fn canonical_audio(b: Seq<u8>) -> Option<(u32, Seq<i16>)> {
    if is_pcm16_mono(b) {
        Some(
            (
                read_u32(b.take(44), 24) as u32,
                Seq::new(((b.len() - 44) / 2) as nat, |i: int| read_sample(b, 44 + 2 * i)),
            ),
        )
    } else {
        None
    }
}

/// What `hound` reads from arbitrary bytes: the sample rate and the samples
/// as `i16`, or, where it refuses them, the kind of its error and the text
/// its error displays.
pub uninterp spec fn hound_reading(bytes: Seq<u8>) -> Result<
    (u32, Seq<i16>),
    (WavErrorKind, Seq<char>),
>;

/// What reading `bytes` gives: for the layout this library writes, the rate
/// and samples laid out in them; for any other bytes, what `hound` reads.
pub open spec fn wav_read(bytes: Seq<u8>) -> Result<(u32, Seq<i16>), (WavErrorKind, Seq<char>)> {
    match canonical_audio(bytes) {
        Some(a) => Ok(a),
        None => hound_reading(bytes),
    }
}

/// The rate and samples that reading `bytes` gives, or `None` where it
/// refuses them.
pub open spec fn wav_decoded(bytes: Seq<u8>) -> Option<(u32, Seq<i16>)> {
    match wav_read(bytes) {
        Ok(a) => Some(a),
        Err(_) => None,
    }
}

/// A refusal, with its text taken as characters.
pub open spec fn refusal(e: WavError) -> (WavErrorKind, Seq<char>) {
    (e.kind, e.message@)
}

/// The outcome of a read, taken as plain values.
pub open spec fn read_outcome(r: Result<(Vec<i16>, u32), WavError>) -> Result<
    (u32, Seq<i16>),
    (WavErrorKind, Seq<char>),
> {
    match r {
        Ok((samples, rate)) => Ok((rate, samples@)),
        Err(e) => Err(refusal(e)),
    }
}

/// A rate and a sample count that a mono 16-bit file can be written with:
/// the rate is not zero, the byte rate (twice the rate) and the RIFF size
/// (36 plus twice the count) fit in 32 bits.
pub open spec fn writable(rate: u32, n: nat) -> bool {
    &&& 0 < rate
    &&& 2 * rate <= u32::MAX
    &&& 36 + 2 * n <= u32::MAX
}

proof fn lemma_u32_bytes(v: int)
    requires
        0 <= v <= u32::MAX,
    ensures
        byte0(v) + 256 * byte1(v) + 65536 * byte2(v) + 16777216 * byte3(v) == v,
{
    assert(byte0(v) == v % 256);
    assert(byte1(v) == (v / 256) % 256);
    assert(byte2(v) == (v / 65536) % 256);
    assert(byte3(v) == (v / 16777216) % 256);
    assert((v % 256) + 256 * ((v / 256) % 256) + 65536 * ((v / 65536) % 256) + 16777216 * ((v
        / 16777216) % 256) == v) by (nonlinear_arith)
        requires
            0 <= v <= u32::MAX,
    ;
}

proof fn lemma_sample_bytes(s: i16)
    ensures
        ({
            let u = byte0(unsigned16(s)) + 256 * byte1(unsigned16(s));
            (if u >= 32768 {
                (u - 65536) as i16
            } else {
                u as i16
            }) == s
        }),
{
    let u = unsigned16(s);
    assert(0 <= u < 65536);
    assert(byte0(u) == u % 256);
    assert(byte1(u) == (u / 256) % 256);
    assert((u % 256) + 256 * ((u / 256) % 256) == u) by (nonlinear_arith)
        requires
            0 <= u < 65536,
    ;
}

proof fn lemma_header_fields(rate: u32, n: nat)
    requires
        writable(rate, n),
    ensures
        is_pcm16_mono_header(wav_header(rate, n), 2 * n as int),
        read_u32(wav_header(rate, n), 24) == rate,
{
    reveal(wav_header);
    lemma_u32_bytes(36 + 2 * n as int);
    lemma_u32_bytes(rate as int);
    lemma_u32_bytes(2 * rate);
    lemma_u32_bytes(2 * n as int);
}

proof fn lemma_samples_read_back(rate: u32, samples: Seq<i16>)
    requires
        writable(rate, samples.len()),
    ensures
        ({
            let b = wav_image(rate, samples);
            Seq::new(samples.len(), |i: int| read_sample(b, 44 + 2 * i)) =~= samples
        }),
{
    let b = wav_image(rate, samples);
    let sb = sample_bytes(samples);
    lemma_header_fields(rate, samples.len());
    assert forall|i: int| 0 <= i < samples.len() implies read_sample(b, 44 + 2 * i)
        == samples[i] by {
        assert(b[44 + 2 * i] == sb[2 * i]);
        assert(b[44 + 2 * i + 1] == sb[2 * i + 1]);
        assert((2 * i) / 2 == i);
        assert((2 * i + 1) / 2 == i);
        assert((2 * i) % 2 == 0);
        assert((2 * i + 1) % 2 == 1);
        lemma_sample_bytes(samples[i]);
    }
}

proof fn lemma_image_layout(rate: u32, samples: Seq<i16>)
    requires
        writable(rate, samples.len()),
    ensures
        wav_image(rate, samples).len() == 44 + 2 * samples.len(),
        wav_image(rate, samples).take(44) == wav_header(rate, samples.len()),
        is_pcm16_mono(wav_image(rate, samples)),
{
    lemma_header_fields(rate, samples.len());
    lemma_take_prefix(wav_header(rate, samples.len()), sample_bytes(samples));
}

proof fn lemma_take_prefix(a: Seq<u8>, c: Seq<u8>)
    ensures
        (a + c).take(a.len() as int) == a,
{
    assert((a + c).take(a.len() as int) =~= a);
}

/// Reading the bytes that this library writes gives back the rate and the
/// samples that were written.
pub proof fn lemma_read_gives_back_write(rate: u32, samples: Seq<i16>)
    requires
        writable(rate, samples.len()),
    ensures
        wav_decoded(wav_image(rate, samples)) == Some((rate, samples)),
{
    let n = samples.len();
    let b = wav_image(rate, samples);
    lemma_image_layout(rate, samples);
    lemma_header_fields(rate, n);
    lemma_samples_read_back(rate, samples);
    assert(((b.len() - 44) / 2) as nat == n);
    assert(canonical_audio(b) == Some((rate, samples)));
}

proof fn lemma_bytes_of_u32(x0: u8, x1: u8, x2: u8, x3: u8)
    ensures
        ({
            let v = x0 + 256 * x1 + 65536 * x2 + 16777216 * x3;
            &&& byte0(v) == x0
            &&& byte1(v) == x1
            &&& byte2(v) == x2
            &&& byte3(v) == x3
        }),
{
    let v = x0 + 256 * x1 + 65536 * x2 + 16777216 * x3;
    assert(v % 256 == x0 && (v / 256) % 256 == x1 && (v / 65536) % 256 == x2 && (v / 16777216)
        % 256 == x3) by (nonlinear_arith)
        requires
            v == x0 + 256 * x1 + 65536 * x2 + 16777216 * x3,
            0 <= x0 < 256,
            0 <= x1 < 256,
            0 <= x2 < 256,
            0 <= x3 < 256,
    ;
}

proof fn lemma_bytes_of_sample(b: Seq<u8>, at: int)
    requires
        0 <= at,
        at + 1 < b.len(),
    ensures
        byte0(unsigned16(read_sample(b, at))) == b[at],
        byte1(unsigned16(read_sample(b, at))) == b[at + 1],
{
    let u = read_u16(b, at);
    assert(unsigned16(read_sample(b, at)) == u);
    lemma_bytes_of_u32(b[at], b[at + 1], 0, 0);
}

/// Writing the rate and samples read from bytes of this library's layout
/// gives back those very bytes.
pub proof fn lemma_write_gives_back_read(b: Seq<u8>)
    requires
        is_pcm16_mono(b),
    ensures
        canonical_audio(b) matches Some((rate, samples)) && wav_image(rate, samples) == b,
{
    let h = b.take(44);
    let rate = read_u32(h, 24) as u32;
    let n = ((b.len() - 44) / 2) as nat;
    let samples = Seq::new(n, |i: int| read_sample(b, 44 + 2 * i));
    assert(canonical_audio(b) == Some((rate, samples)));
    reveal(wav_header);
    let image = wav_image(rate, samples);
    lemma_bytes_of_u32(h[4], h[5], h[6], h[7]);
    lemma_bytes_of_u32(h[16], h[17], h[18], h[19]);
    lemma_bytes_of_u32(h[20], h[21], h[22], h[23]);
    lemma_bytes_of_u32(h[24], h[25], h[26], h[27]);
    lemma_bytes_of_u32(h[28], h[29], h[30], h[31]);
    lemma_bytes_of_u32(h[32], h[33], h[34], h[35]);
    lemma_bytes_of_u32(h[40], h[41], h[42], h[43]);
    assert(h.len() == 44);
    assert forall|k: int| 0 <= k < 44 implies #[trigger] image[k] == b[k] by {
        assert(h[k] == b[k]);
    }
    assert forall|j: int| 0 <= j < 2 * n implies #[trigger] image[44 + j] == b[44 + j] by {
        let i = j / 2;
        assert(0 <= i < n);
        lemma_bytes_of_sample(b, 44 + 2 * i);
        if j % 2 == 0 {
            assert(j == 2 * i);
        } else {
            assert(j == 2 * i + 1);
        }
    }
    assert forall|k: int| 0 <= k < b.len() implies image[k] == b[k] by {
        if k >= 44 {
            assert(image[44 + (k - 44)] == b[44 + (k - 44)]);
        }
    }
    assert(image =~= b);
}

/// The kinds of `hound::Error`.
#[derive(Debug, Clone, Copy, PartialEq, Eq)]
pub enum WavErrorKind {
    Io,
    Format,
    TooWide,
    UnfinishedSample,
    Unsupported,
    InvalidSampleFormat,
}

/// Why bytes could not be read as WAV audio: the kind of `hound::Error` and
/// the text that hound displays for it.
#[derive(Debug)]
pub struct WavError {
    pub kind: WavErrorKind,
    pub message: String,
}

#[verifier::external_type_specification]
#[verifier::external_body]
pub struct ExHoundError(hound::Error);

/// `hound::WavReader::new` over the bytes in memory, then the sample rate of
/// its `spec()` and every sample read as `i16` through `into_samples`; a
/// `hound::Error` is told apart by variant and kept with the text its
/// `Display` shows. Claimed: the outcome, error included, depends on the
/// bytes alone (`hound_reading`), and for bytes laid out as this library
/// writes them, hound reads back the rate and samples laid out in them.
#[verifier::external_body]
fn hound_read(bytes: &[u8]) -> (r: Result<(Vec<i16>, u32), WavError>)
    ensures
        read_outcome(r) == hound_reading(bytes@),
        canonical_audio(bytes@) is Some ==> read_outcome(r) == wav_read(bytes@),
{
    let read = hound::WavReader::new(std::io::Cursor::new(bytes)).and_then(|reader| {
        let sample_rate = reader.spec().sample_rate;
        reader.into_samples::<i16>().collect::<Result<Vec<i16>, _>>().map(|s| (s, sample_rate))
    });
    let error = match read { Ok(audio) => return Ok(audio), Err(e) => e };
    let kind = match &error {
        hound::Error::IoError(_) => WavErrorKind::Io,
        hound::Error::FormatError(_) => WavErrorKind::Format,
        hound::Error::TooWide => WavErrorKind::TooWide,
        hound::Error::UnfinishedSample => WavErrorKind::UnfinishedSample,
        hound::Error::Unsupported => WavErrorKind::Unsupported,
        hound::Error::InvalidSampleFormat => WavErrorKind::InvalidSampleFormat,
    };
    Err(WavError { kind, message: error.to_string() })
}

/// `hound::WavWriter::new` over a `Cursor<Vec<u8>>` with an integer-sample
/// `WavSpec` of the given channels, rate and bits, one `write_sample` per
/// sample, then `finalize`; the bytes written. Claimed, for one channel at 16
/// bits: the writer succeeds and writes exactly `wav_image`. Inputs on which
/// hound's header arithmetic would overflow or divide by zero are excluded.
#[verifier::external_body]
fn hound_write(samples: &[i16], channels: u16, sample_rate: u32, bits_per_sample: u16) -> (r: Result<Vec<u8>, hound::Error>)
    requires
        channels == 1,
        bits_per_sample == 16,
        writable(sample_rate, samples@.len()),
    ensures
        r is Ok,
        r matches Ok(bytes) ==> bytes@ == wav_image(sample_rate, samples@),
{
    let sample_format = hound::SampleFormat::Int;
    let spec = hound::WavSpec { channels, sample_rate, bits_per_sample, sample_format };
    let mut out = std::io::Cursor::new(Vec::new());
    let mut writer = hound::WavWriter::new(&mut out, spec)?;
    for sample in samples {
        writer.write_sample(*sample)?;
    }
    writer.finalize()?;
    Ok(out.into_inner())
}

/// Reads WAV bytes: the samples as `i16` and the sample rate.
pub fn decode_wav(bytes: &[u8]) -> (r: Result<(Vec<i16>, u32), WavError>)
    ensures
        read_outcome(r) == wav_read(bytes@),
{
    hound_read(bytes)
}

pub const CHANNELS: u16 = 1;

pub const BITS_PER_SAMPLE: u16 = 16;

/// Writes samples as a mono 16-bit PCM WAV file at `sample_rate`.
pub fn encode_wav(samples: &[i16], sample_rate: u32) -> (bytes: Vec<u8>)
    requires
        writable(sample_rate, samples@.len()),
    ensures
        bytes@ == wav_image(sample_rate, samples@),
{
    match hound_write(samples, CHANNELS, sample_rate, BITS_PER_SAMPLE) {
        Ok(bytes) => bytes,
        Err(_) => {
            proof {
                assert(false);
            }
            Vec::new()
        },
    }
}

} // verus!
