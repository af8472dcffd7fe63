use audio_sorter::audio_decoder::{
    after_decode, after_read, convert_to_i16, first_audio_track, mono_len, resampled_len, source_position, DecodeOutcome,
    DecodedAudio, PacketStep, ReadOutcome, SampleBuffer,
};
use audio_sorter::genre_classifier::{
    classifier_model_file, embedding_model_file,
    frame_count, genre_label, genres_for_track, init_models, is_initialized, patch_starts, to_metadata_format, top_genres,
    ClassifierSetup, GenreError, GenreResult,
};
use audio_sorter::ranking::total_order_key_exec;

#[test]
fn sample_formats_convert_by_their_rules() {
    let mut out = Vec::new();
    convert_to_i16(&SampleBuffer::U8(vec![vec![0, 128, 255]]), &mut out);
    assert_eq!(out, vec![-32768, 0, 32512]);
    let mut out = Vec::new();
    convert_to_i16(&SampleBuffer::S8(vec![vec![-128, 1, 127]]), &mut out);
    assert_eq!(out, vec![-32768, 256, 32512]);
    let mut out = Vec::new();
    convert_to_i16(&SampleBuffer::U16(vec![vec![0, 32768, 65535]]), &mut out);
    assert_eq!(out, vec![-32768, 0, 32767]);
    let mut out = Vec::new();
    convert_to_i16(&SampleBuffer::S16(vec![vec![-5, 7]]), &mut out);
    assert_eq!(out, vec![-5, 7]);
    let mut out = Vec::new();
    convert_to_i16(&SampleBuffer::U24(vec![vec![0, 0x80_0000, 0xFF_FFFF]]), &mut out);
    assert_eq!(out, vec![-32768, 0, 32767]);
    let mut out = Vec::new();
    convert_to_i16(&SampleBuffer::S24(vec![vec![-0x80_0000, -1, 0x7F_FFFF, 256]]), &mut out);
    assert_eq!(out, vec![-32768, -1, 32767, 1]);
    let mut out = Vec::new();
    convert_to_i16(&SampleBuffer::U32(vec![vec![0, 0x8000_0000, u32::MAX]]), &mut out);
    assert_eq!(out, vec![-32768, 0, 32767]);
    let mut out = Vec::new();
    convert_to_i16(&SampleBuffer::S32(vec![vec![i32::MIN, -1, i32::MAX, 65536]]), &mut out);
    assert_eq!(out, vec![-32768, -1, 32767, 1]);
}

#[test]
fn signed_shifts_match_arithmetic_shift() {
    for v in [-70000i32, -65537, -65536, -65535, -1, 0, 1, 65535, 65536, 123456789, -123456789] {
        let mut out = Vec::new();
        convert_to_i16(&SampleBuffer::S32(vec![vec![v]]), &mut out);
        assert_eq!(out, vec![(v >> 16) as i16]);
    }
}

#[test]
fn planes_are_interleaved_and_appended() {
    let mut out = vec![9];
    convert_to_i16(&SampleBuffer::S16(vec![vec![1, 2, 3], vec![-1, -2, -3]]), &mut out);
    assert_eq!(out, vec![9, 1, -1, 2, -2, 3, -3]);
    let mut out = Vec::new();
    convert_to_i16(&SampleBuffer::U8(vec![]), &mut out);
    assert!(out.is_empty());
}

#[test]
fn mono_22050_length() {
    assert_eq!(mono_len(10, 2), 5);
    assert_eq!(mono_len(11, 2), 6);
    assert_eq!(mono_len(7, 1), 7);
    assert_eq!(resampled_len(44100, 44100), 22050);
    assert_eq!(resampled_len(22050, 22050), 22050);
    assert_eq!(resampled_len(1000, 48000), 459);
    assert_eq!(resampled_len(5, 0), 0);
    let audio = DecodedAudio { samples_i16: vec![0; 2 * 88200], sample_rate: 44100, channels: 2, duration_bits: 2.0f64.to_bits() };
    assert_eq!(audio.mono_22050_len(), 44100);
    assert_eq!(source_position(3, 44100), (6, 0));
    assert_eq!(source_position(1, 32000), (1, 9950));
}

fn activations() -> Vec<u32> {
    (0..87).map(|i| ((i % 10) as f32 / 10.0).to_bits()).collect()
}

#[test]
fn top_genres_sorted_by_confidence() {
    let r = top_genres(&activations(), 3).unwrap();
    assert_eq!(r.len(), 3);
    // confidence 0.9 at positions 9, 19, 29, ...; ties keep label order
    assert_eq!(r[0].label, genre_label(9));
    assert_eq!(r[0].label, "blues");
    assert_eq!(r[1].label, "club");
    assert_eq!(r[2].label, "dub");
    assert!(r.iter().all(|g| f32::from_bits(g.confidence_bits) == 0.9));
    let all = top_genres(&activations(), 100).unwrap();
    assert_eq!(all.len(), 87);
    for w in all.windows(2) {
        assert!(f32::from_bits(w[0].confidence_bits) >= f32::from_bits(w[1].confidence_bits));
    }
}

#[test]
fn top_genres_needs_eighty_seven_scores() {
    assert!(matches!(top_genres(&vec![0; 86], 3), Err(GenreError::ClassifierRun)));
    assert!(matches!(top_genres(&vec![0; 88], 3), Err(GenreError::ClassifierRun)));
    assert_eq!(top_genres(&vec![0; 87], 0).unwrap().len(), 0);
}

#[test]
fn label_table_ends() {
    assert_eq!(genre_label(0), "60s");
    assert_eq!(genre_label(33), "electronic");
    assert_eq!(genre_label(86), "worldfusion");
}

#[test]
fn total_order_key_orders_floats() {
    let xs = [-2.5f32, -0.0, 0.0, 0.25, 1.0, 3.0e10];
    for w in xs.windows(2) {
        assert!(total_order_key_exec(w[0].to_bits()) < total_order_key_exec(w[1].to_bits()));
    }
}

#[test]
fn patches_and_frames() {
    assert_eq!(patch_starts(127), Vec::<usize>::new());
    assert_eq!(patch_starts(128), vec![0]);
    assert_eq!(patch_starts(300), vec![0, 64, 128]);
    assert_eq!(frame_count(1000), 0);
    assert_eq!(frame_count(1024), 1);
    assert_eq!(frame_count(2047), 2);
    assert_eq!(frame_count(16000), 30);
}

#[test]
fn classify_with_missing_model_leaves_genres_empty() {
    let mut setup = ClassifierSetup::new();
    init_models(&mut setup, "assets/models".to_string(), false, true);
    assert!(!is_initialized(&setup));
    let outcome = Some(Ok(vec![GenreResult { label: "rock".to_string(), confidence_bits: 0.5f32.to_bits() }]));
    assert_eq!(genres_for_track(&setup, outcome).unwrap(), vec![]);
    init_models(&mut setup, "m".to_string(), true, true);
    assert!(is_initialized(&setup));
    init_models(&mut setup, "other".to_string(), true, true);
    assert_eq!(setup.model_dir.as_deref(), Some("m"));
    let outcome = Some(Ok(vec![GenreResult { label: "rock".to_string(), confidence_bits: 7 }]));
    assert_eq!(genres_for_track(&setup, outcome).unwrap(), vec![("rock".to_string(), 7)]);
    assert!(matches!(genres_for_track(&setup, Some(Err(GenreError::ClassifierRun))), Err(GenreError::ClassifierRun)));
}

#[test]
fn metadata_format_pairs() {
    let r = vec![GenreResult { label: "a".to_string(), confidence_bits: 1 }, GenreResult { label: "b".to_string(), confidence_bits: 2 }];
    assert_eq!(to_metadata_format(&r), vec![("a".to_string(), 1), ("b".to_string(), 2)]);
}

#[test]
fn decode_loop_steps() {
    assert_eq!(after_read(ReadOutcome::Packet(3), 3), PacketStep::Take);
    assert_eq!(after_read(ReadOutcome::Packet(2), 3), PacketStep::Skip);
    assert_eq!(after_read(ReadOutcome::EndOfStream, 3), PacketStep::Stop);
    assert_eq!(after_read(ReadOutcome::ReadError, 3), PacketStep::Fail);
    assert_eq!(after_decode(DecodeOutcome::Decoded), PacketStep::Take);
    assert_eq!(after_decode(DecodeOutcome::BadPacket), PacketStep::Skip);
    assert_eq!(after_decode(DecodeOutcome::Failed), PacketStep::Fail);
    assert_eq!(first_audio_track(&vec![true, false, false]), Some(1));
    assert_eq!(first_audio_track(&vec![true, true]), None);
    assert_eq!(first_audio_track(&vec![]), None);
}

#[test]
fn packet_checks_before_conversion() {
    assert!(SampleBuffer::S16(vec![vec![1, 2], vec![3, 4]]).is_wf());
    assert!(!SampleBuffer::S16(vec![vec![1, 2], vec![3]]).is_wf());
    assert!(SampleBuffer::U24(vec![vec![0xFF_FFFF]]).is_wf());
    assert!(!SampleBuffer::U24(vec![vec![0x100_0000]]).is_wf());
    assert!(!SampleBuffer::S24(vec![vec![-0x80_0001]]).is_wf());
    assert!(SampleBuffer::U8(vec![]).is_wf());
    assert_eq!(SampleBuffer::S16(vec![vec![1, 2, 3], vec![3, 4, 5]]).sample_count(), Some(6));
    assert_eq!(SampleBuffer::U8(vec![]).sample_count(), Some(0));
}

#[test]
fn model_file_names() {
    assert_eq!(embedding_model_file(), "discogs-effnet-bsdynamic-1.onnx");
    assert_eq!(classifier_model_file(), "mtg_jamendo_genre-discogs-effnet.onnx");
}
