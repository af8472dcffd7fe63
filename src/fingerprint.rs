use vstd::prelude::*;

use crate::audio_decoder::DecodedAudio;
use crate::base64url::{base64_encode, encode_group, encode_spec};

verus! {

/// The fingerprinter's refusal of a sample rate or channel count, carried opaquely.
#[verifier::external_type_specification]
#[verifier::external_body]
pub struct ExResetError(rusty_chromaprint::ResetError);

/// What Chromaprint's compressor, configured with the AcoustID-compatible "test2" preset,
/// makes of a raw fingerprint.
pub uninterp spec fn compressed_fingerprint(raw: Seq<u32>) -> Seq<u8>;

/// Whether Chromaprint's fingerprinter refuses to start at `sample_rate` Hz with `channels`
/// channels (no channels, a rate of 1000 Hz or less, or a rate it cannot resample from).
pub uninterp spec fn fingerprinter_refuses(sample_rate: u32, channels: u32) -> bool;

/// Most channels the fingerprinter is handed: it averages up to 65536 samples of a frame
/// in an `i32`.
pub const MAX_CHANNELS: u32 = 65536;

/// Relies on `Fingerprinter::new` with `Configuration::preset_test2`, then `start`,
/// `consume`, `finish` and `fingerprint`: the raw fingerprint of interleaved samples. Only
/// `start` can fail, and whether it does depends on the rate and channel count alone
/// (`AudioProcessor::reset`). The fingerprint itself is not named: the FFT and resampler
/// pick their code path from the CPU, so it may differ between machines. `consume` panics
/// on a partial frame, and its channel average overflows an `i32` past 65536 channels; the
/// precondition excludes both.
#[verifier::external_body]
fn raw_fingerprint(samples: &[i16], sample_rate: u32, channels: u32) -> (r: Result<Vec<u32>, rusty_chromaprint::ResetError>)
    requires
        channels <= MAX_CHANNELS,
        channels > 0 ==> (samples@.len() as int) % (channels as int) == 0,
    ensures
        r is Err <==> fingerprinter_refuses(sample_rate, channels),
        channels == 0 || sample_rate <= 1000 ==> r is Err,
{
    let config = rusty_chromaprint::Configuration::preset_test2();
    let mut printer = rusty_chromaprint::Fingerprinter::new(&config);
    printer.start(sample_rate, channels)?;
    printer.consume(samples);
    printer.finish();
    Ok(printer.fingerprint().to_vec())
}

/// Relies on `FingerprintCompressor::compress` for the "test2" preset: a function of the
/// raw fingerprint, which begins with a four-byte header.
#[verifier::external_body]
fn compress(raw: &Vec<u32>) -> (r: Vec<u8>)
    ensures
        r@ == compressed_fingerprint(raw@),
        r@.len() >= 4,
{
    let config = rusty_chromaprint::Configuration::preset_test2();
    rusty_chromaprint::FingerprintCompressor::from(&config).compress(raw)
}

/// The error that `compute_fingerprint_from_samples` gives for samples `s` at rate `sr`
/// with `ch` channels before any raw fingerprint exists, if any.
pub open spec fn fingerprint_refusal(s: Seq<i16>, sr: u32, ch: u32) -> Option<FingerprintError> {
    if s.len() == 0 {
        Some(FingerprintError::NoSamples)
    } else if ch > 0 && (s.len() as int) % (ch as int) != 0 {
        Some(FingerprintError::PartialFrame)
    } else if ch > MAX_CHANNELS || fingerprinter_refuses(sr, ch) {
        Some(FingerprintError::Start)
    } else {
        None
    }
}

/// `r` is the wire form of some non-empty raw fingerprint.
pub open spec fn is_wire_fingerprint(r: Seq<char>) -> bool {
    exists|raw: Seq<u32>| raw.len() > 0 && r == encode_spec(#[trigger] compressed_fingerprint(raw))
}

/// Why no fingerprint was computed.
#[derive(Debug, PartialEq, Eq, Structural)]
pub enum FingerprintError {
    /// No samples were given.
    NoSamples,
    /// The sample count is not a whole number of frames.
    PartialFrame,
    /// The fingerprinter refused the sample rate or channel count.
    Start,
    /// The audio was too short to give a fingerprint.
    Empty,
}

/// The wire form of a raw fingerprint: compressed, then base64url-encoded without padding,
/// as AcoustID's `FINGERPRINT=` line has it. Never empty.
pub fn encode_fingerprint(raw: &Vec<u32>) -> (r: String)
    ensures
        r@ == encode_spec(compressed_fingerprint(raw@)),
        r@.len() > 0,
{
    let compressed = compress(raw);
    let r = base64_encode(compressed.as_slice());
    proof {
        let c = compressed@;
        assert(c.len() > 3);
        assert(encode_spec(c) == encode_group(c.subrange(0, 3)) + encode_spec(c.subrange(3, c.len() as int)));
    }
    r
}

/// The fingerprint of interleaved 16-bit samples, in wire form: `NoSamples` for no samples,
/// `PartialFrame` for a partial last frame, `Start` where the fingerprinter refuses the
/// rate or channel count (or there are over 65536 channels), and otherwise the encoding of
/// the raw fingerprint, or `Empty` where the audio was too short to give one.
pub fn compute_fingerprint_from_samples(samples: &[i16], sample_rate: u32, channels: u32) -> (r: Result<
    String,
    FingerprintError,
>)
    ensures
        fingerprint_refusal(samples@, sample_rate, channels) is Some ==> r is Err && r->Err_0 == fingerprint_refusal(
            samples@,
            sample_rate,
            channels,
        )->0,
        fingerprint_refusal(samples@, sample_rate, channels) is None ==> r is Ok || r == Err::<String, FingerprintError>(
            FingerprintError::Empty,
        ),
        r is Ok ==> is_wire_fingerprint(r->Ok_0@),
        samples@.len() > 0 && (channels == 0 || sample_rate <= 1000) && (channels == 0 || (samples@.len() as int) % (
        channels as int) == 0) ==> r == Err::<String, FingerprintError>(FingerprintError::Start),
        r is Ok ==> r->Ok_0@.len() > 0,
{
    if samples.len() == 0 {
        return Err(FingerprintError::NoSamples);
    }
    if channels > 0 && samples.len() % (channels as usize) != 0 {
        return Err(FingerprintError::PartialFrame);
    }
    if channels > MAX_CHANNELS {
        return Err(FingerprintError::Start);
    }
    match raw_fingerprint(samples, sample_rate, channels) {
        Ok(raw) => {
            if raw.len() == 0 {
                return Err(FingerprintError::Empty);
            }
            let r = encode_fingerprint(&raw);
            assert(raw@.len() > 0 && r@ == encode_spec(compressed_fingerprint(raw@)));
            Ok(r)
        },
        Err(_) => Err(FingerprintError::Start),
    }
}

/// The fingerprint of decoded audio, from its samples, rate and channel count.
pub fn compute_fingerprint_from_decoded(decoded: &DecodedAudio) -> (r: Result<String, FingerprintError>)
    ensures
        fingerprint_refusal(decoded.samples_i16@, decoded.sample_rate, decoded.channels) is Some ==> r is Err
            && r->Err_0 == fingerprint_refusal(decoded.samples_i16@, decoded.sample_rate, decoded.channels)->0,
        fingerprint_refusal(decoded.samples_i16@, decoded.sample_rate, decoded.channels) is None ==> r is Ok || r
            == Err::<String, FingerprintError>(FingerprintError::Empty),
        r is Ok ==> is_wire_fingerprint(r->Ok_0@),
        r is Ok ==> r->Ok_0@.len() > 0,
{
    compute_fingerprint_from_samples(decoded.samples_i16.as_slice(), decoded.sample_rate, decoded.channels)
}

} // verus!
