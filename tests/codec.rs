use audio_sorter::base64url::{base64_decode, base64_encode};
use audio_sorter::audio_decoder::DecodedAudio;
use audio_sorter::fingerprint::{
    compute_fingerprint_from_decoded, compute_fingerprint_from_samples, encode_fingerprint, FingerprintError,
};

#[test]
fn base64_encodes_whole_groups() {
    assert_eq!(base64_encode(b""), "");
    assert_eq!(base64_encode(b"Man"), "TWFu");
    assert_eq!(base64_encode(&[0, 0, 0]), "AAAA");
}

#[test]
fn base64_encodes_tails_without_padding() {
    assert_eq!(base64_encode(b"Ma"), "TWE");
    assert_eq!(base64_encode(b"M"), "TQ");
    assert_eq!(base64_encode(&[0xff]), "_w");
}

#[test]
fn base64_uses_url_safe_symbols() {
    assert_eq!(base64_encode(&[0xfb, 0xff]), "-_8");
    assert_eq!(base64_encode(&[0xfb, 0xef, 0xbe]), "----");
    assert_eq!(base64_encode(&[0xff, 0xff, 0xff]), "____");
}

#[test]
fn base64_decode_inverts_encode() {
    let samples: Vec<Vec<u8>> = vec![vec![], vec![1], vec![1, 2], vec![1, 2, 3], (0..=255).collect(), vec![0xfb, 0xff, 0x00, 0x10]];
    for b in samples {
        let s = base64_encode(&b);
        assert_eq!(base64_decode(&s), Some(b.clone()));
    }
}

#[test]
fn base64_decode_rejects_what_no_encoding_gives() {
    assert_eq!(base64_decode("A"), None);
    assert_eq!(base64_decode("TWFuT"), None);
    assert_eq!(base64_decode("TW=u"), None);
    assert_eq!(base64_decode("TW+u"), None);
    // spare bits of a short group must be zero
    assert_eq!(base64_decode("AB"), None);
    assert_eq!(base64_decode("AAB"), None);
    assert_eq!(base64_decode("TWFu"), Some(b"Man".to_vec()));
    assert_eq!(base64_decode("-_8"), Some(vec![0xfb, 0xff]));
}

#[test]
fn fingerprint_rejects_empty_input() {
    assert_eq!(compute_fingerprint_from_samples(&[], 44100, 2), Err(FingerprintError::NoSamples));
}

#[test]
fn fingerprint_rejects_partial_frames_and_bad_formats() {
    assert_eq!(compute_fingerprint_from_samples(&[1, 2, 3], 44100, 2), Err(FingerprintError::PartialFrame));
    assert_eq!(compute_fingerprint_from_samples(&[1, 2], 44100, 0), Err(FingerprintError::Start));
    assert_eq!(compute_fingerprint_from_samples(&[1, 2], 800, 1), Err(FingerprintError::Start));
    let many = vec![-32768i16; 65537];
    assert_eq!(compute_fingerprint_from_samples(&many, 44100, 65537), Err(FingerprintError::Start));
}

#[test]
fn encoded_fingerprint_is_compressed_then_base64() {
    let raw: Vec<u32> = vec![0x1234_5678, 0x1234_5679, 0xdead_beef, 0];
    let config = rusty_chromaprint::Configuration::preset_test2();
    let compressed = rusty_chromaprint::FingerprintCompressor::from(&config).compress(&raw);
    let expected = base64_encode(&compressed);
    let got = encode_fingerprint(&raw);
    assert_eq!(got, expected);
    assert_ne!(got, base64_encode(&[]));
    assert_eq!(base64_decode(&got), Some(compressed));
}

fn tone(seconds: u32, rate: u32) -> Vec<i16> {
    let n = (seconds * rate) as usize;
    (0..n)
        .map(|i| {
            let t = i as f64 / rate as f64;
            let v = (t * 440.0 * 2.0 * std::f64::consts::PI).sin() * 0.4 + (t * 660.0 * 2.0 * std::f64::consts::PI).sin() * 0.3;
            (v * 20000.0) as i16
        })
        .collect()
}

#[test]
fn identical_audio_gives_identical_fingerprints() {
    let a = tone(12, 11025);
    let b = a.clone();
    let fa = compute_fingerprint_from_samples(&a, 11025, 1).unwrap();
    let fb = compute_fingerprint_from_samples(&b, 11025, 1).unwrap();
    assert!(!fa.is_empty());
    assert_eq!(fa, fb);
    assert!(fa.chars().all(|c| c.is_ascii_alphanumeric() || c == '-' || c == '_'));
}

#[test]
fn fingerprint_of_decoded_audio_uses_its_format() {
    let empty = DecodedAudio { samples_i16: vec![], sample_rate: 44100, channels: 2, duration_bits: 0 };
    assert_eq!(compute_fingerprint_from_decoded(&empty), Err(FingerprintError::NoSamples));
    let odd = DecodedAudio { samples_i16: vec![1, 2, 3], sample_rate: 44100, channels: 2, duration_bits: 0 };
    assert_eq!(compute_fingerprint_from_decoded(&odd), Err(FingerprintError::PartialFrame));
    let samples = tone(12, 11025);
    let audio = DecodedAudio { samples_i16: samples.clone(), sample_rate: 11025, channels: 1, duration_bits: 12.0f64.to_bits() };
    assert_eq!(compute_fingerprint_from_decoded(&audio), compute_fingerprint_from_samples(&samples, 11025, 1));
}
