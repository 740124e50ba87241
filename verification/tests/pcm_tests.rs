use speech_server::pcm::{decode_pcm16, encode_pcm16, quiet, quiet_range};
use speech_server::stt::handler::is_silence_internal;
use speech_server::stt::service::is_silence;

#[test]
fn decode_reads_little_endian_pairs_and_drops_odd_byte() {
    let bytes = [0x01u8, 0x00, 0xff, 0xff, 0x00, 0x80, 0xff, 0x7f, 0x2a];
    assert_eq!(decode_pcm16(&bytes), vec![1i16, -1, -32768, 32767]);
}

#[test]
fn decode_empty_and_single_byte() {
    assert!(decode_pcm16(&[]).is_empty());
    assert!(decode_pcm16(&[7u8]).is_empty());
}

#[test]
fn encode_writes_little_endian_pairs() {
    let samples = [1i16, -1, -32768, 32767, 258];
    assert_eq!(
        encode_pcm16(&samples),
        vec![0x01u8, 0x00, 0xff, 0xff, 0x00, 0x80, 0xff, 0x7f, 0x02, 0x01]
    );
}

#[test]
fn encode_matches_std_to_le_bytes() {
    let samples: Vec<i16> = (-40i32..40).map(|k| (k * 811) as i16).collect();
    let mut expected = Vec::new();
    for s in &samples {
        expected.extend_from_slice(&s.to_le_bytes());
    }
    assert_eq!(encode_pcm16(&samples), expected);
}

#[test]
fn decode_after_encode_gives_samples_back() {
    let samples = vec![0i16, 5, -5, 12345, -12345, i16::MIN, i16::MAX];
    assert_eq!(decode_pcm16(&encode_pcm16(&samples)), samples);
}

#[test]
fn encode_after_decode_gives_bytes_back() {
    let bytes: Vec<u8> = (0u16..64).map(|b| (b * 37 % 256) as u8).collect();
    assert_eq!(encode_pcm16(&decode_pcm16(&bytes)), bytes);
}

#[test]
fn empty_audio_is_quiet() {
    assert!(quiet(&[], 15));
    assert!(is_silence(&[]));
    assert!(is_silence_internal(&[]));
}

#[test]
fn quiet_threshold_of_processor_is_one_and_a_half_percent() {
    // 1.5 % of 32768 is 491.52
    assert!(is_silence(&[491i16; 100]));
    assert!(!is_silence(&[492i16; 100]));
    assert!(is_silence(&[-491i16; 100]));
    assert!(!is_silence(&[-492i16; 100]));
}

#[test]
fn quiet_threshold_of_plain_socket_is_one_and_a_half_percent() {
    // a level of 0.013 (426 / 32768) is quiet
    assert!(is_silence_internal(&[426i16; 4]));
    assert!(is_silence_internal(&[491i16; 50]));
    assert!(!is_silence_internal(&[492i16; 50]));
}

#[test]
fn quiet_uses_mean_magnitude() {
    // mean magnitude (0 + 1000) / 2 = 500 > 491.52
    assert!(!is_silence(&[0i16, 1000]));
    // mean magnitude (0 + 0 + 1000 + 0) / 4 = 250
    assert!(is_silence(&[0i16, 0, -1000, 0]));
}

#[test]
fn quiet_range_looks_at_the_range_only() {
    let samples = vec![10000i16, 10000, 0, 0, 0];
    assert!(quiet_range(&samples, 2, 5, 15));
    assert!(!quiet_range(&samples, 0, 5, 15));
    assert!(quiet_range(&samples, 3, 3, 15));
}
