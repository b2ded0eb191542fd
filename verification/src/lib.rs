//! Offline audio processing: command-line parsing, the effect model and the
//! WAV container, with their contracts proved by Verus.
//!
//! `run` is the read-apply-write seam: it decodes the bytes of a WAV file,
//! hands the samples to the sample processing (the effects, which are
//! floating point and are not part of this library), and encodes the
//! processed samples at the rate that was read.
pub mod cli;
pub mod dsp;
pub mod literal;
pub mod wav;

use vstd::prelude::*;

use crate::wav::{
    decode_wav, encode_wav, is_pcm16_mono, lemma_read_gives_back_write, lemma_write_gives_back_read,
    refusal, wav_decoded, wav_image, wav_read, writable, WavError,
};

verus! {

/// The audio read from `input` can be written back: either the bytes are
/// refused, or their rate and sample count are ones a file can be written with.
pub open spec fn run_admits(input: Seq<u8>) -> bool {
    match wav_decoded(input) {
        Some((rate, samples)) => writable(rate, samples.len()),
        None => true,
    }
}

/// The processing hands back as many samples as it was given.
pub open spec fn keeps_length<F: Fn(Vec<i16>) -> Vec<i16>>(process: F) -> bool {
    forall|s: Vec<i16>, t: Vec<i16>| #[trigger] process.ensures((s,), t) ==> t@.len() == s@.len()
}

/// The processing accepts any samples.
pub open spec fn accepts_all<F: Fn(Vec<i16>) -> Vec<i16>>(process: F) -> bool {
    forall|s: Vec<i16>| #[trigger] process.requires((s,))
}

/// What `run` gives for `input`: for bytes that cannot be read, the very
/// refusal that reading them gives; otherwise the file of the processed
/// samples at the rate that was read.
pub open spec fn run_outcome<F: Fn(Vec<i16>) -> Vec<i16>>(
    input: Seq<u8>,
    process: F,
    r: Result<Vec<u8>, WavError>,
) -> bool {
    match wav_read(input) {
        Err(f) => r matches Err(e) && refusal(e) == f,
        Ok((rate, samples)) => r matches Ok(out) && exists|s: Vec<i16>, t: Vec<i16>|
            s@ == samples && #[trigger] process.ensures((s,), t) && out@ == wav_image(rate, t@),
    }
}

/// Reads the WAV bytes `input`, applies `process` to its samples, and writes
/// the result as a WAV file at the same sample rate.
pub fn run<F: Fn(Vec<i16>) -> Vec<i16>>(input: &[u8], process: F) -> (r: Result<Vec<u8>, WavError>)
    requires
        accepts_all(process),
        keeps_length(process),
        run_admits(input@),
    ensures
        run_outcome(input@, process, r),
{
    let (samples, rate) = match decode_wav(input) {
        Ok(audio) => audio,
        Err(e) => {
            return Err(e);
        },
    };
    let ghost before = samples;
    let processed = process(samples);
    assert(process.ensures((before,), processed));
    Ok(encode_wav(processed.as_slice(), rate))
}

/// `run` where the audio read can be written back; `None` where it cannot
/// (a sample rate of zero or above `0x7fff_ffff`, or more samples than a
/// 32-bit RIFF size can count).
pub fn try_run<F: Fn(Vec<i16>) -> Vec<i16>>(
    input: &[u8],
    process: F,
) -> (r: Option<Result<Vec<u8>, WavError>>)
    requires
        accepts_all(process),
        keeps_length(process),
    ensures
        r is None <==> !run_admits(input@),
        r matches Some(x) ==> run_outcome(input@, process, x),
{
    match decode_wav(input) {
        Ok((samples, rate)) => {
            if rate > 0 && rate <= 0x7fff_ffff && samples.len() <= 0x7fff_ffed {
                Some(run(input, process))
            } else {
                None
            }
        },
        Err(_) => Some(run(input, process)),
    }
}

/// The file that `run` writes reads back as the processed samples, as many as
/// were read, at the sample rate that was read.
pub proof fn lemma_run_output_reads_back<F: Fn(Vec<i16>) -> Vec<i16>>(
    input: Seq<u8>,
    process: F,
    out: Vec<u8>,
)
    requires
        keeps_length(process),
        run_admits(input),
        run_outcome(input, process, Ok(out)),
    ensures
        wav_decoded(input) matches Some((rate, samples)) && exists|t: Seq<i16>|
            t.len() == samples.len() && #[trigger] wav_decoded(out@) == Some((rate, t)),
{
    let (rate, samples) = wav_decoded(input)->Some_0;
    let (s, t) = choose|s: Vec<i16>, t: Vec<i16>|
        s@ == samples && #[trigger] process.ensures((s,), t) && out@ == wav_image(rate, t@);
    lemma_read_gives_back_write(rate, t@);
    assert(wav_decoded(out@) == Some((rate, t@)));
}

/// A run whose processing changes no sample writes back the very bytes it
/// read, for input laid out as this library writes files.
pub proof fn lemma_unchanged_run_writes_input_back<F: Fn(Vec<i16>) -> Vec<i16>>(
    input: Seq<u8>,
    process: F,
    out: Vec<u8>,
)
    requires
        forall|s: Vec<i16>, t: Vec<i16>| #[trigger] process.ensures((s,), t) ==> t@ == s@,
        is_pcm16_mono(input),
        run_outcome(input, process, Ok(out)),
    ensures
        out@ == input,
{
    lemma_write_gives_back_read(input);
    let (rate, samples) = wav_decoded(input)->Some_0;
    let (s, t) = choose|s: Vec<i16>, t: Vec<i16>|
        s@ == samples && #[trigger] process.ensures((s,), t) && out@ == wav_image(rate, t@);
    assert(t@ == samples);
}

/// A run whose processing changes no sample writes a file that reads back as
/// the same sample rate and the same samples as its input.
pub proof fn lemma_unchanged_run_reads_back<F: Fn(Vec<i16>) -> Vec<i16>>(
    input: Seq<u8>,
    process: F,
    out: Vec<u8>,
)
    requires
        forall|s: Vec<i16>, t: Vec<i16>| #[trigger] process.ensures((s,), t) ==> t@ == s@,
        run_admits(input),
        run_outcome(input, process, Ok(out)),
    ensures
        wav_decoded(out@) == wav_decoded(input),
{
    let (rate, samples) = wav_decoded(input)->Some_0;
    let (s, t) = choose|s: Vec<i16>, t: Vec<i16>|
        s@ == samples && #[trigger] process.ensures((s,), t) && out@ == wav_image(rate, t@);
    assert(t@ == samples);
    lemma_read_gives_back_write(rate, samples);
}

} // verus!
