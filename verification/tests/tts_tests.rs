use speech_server::tts::controller::{default_sid, TtsController};
use speech_server::tts::handler::{check_audio, check_text, wav_body, wav_fits, TtsQuery, TtsRejection};
use speech_server::tts::service::{onnx_provider, TextSegmenter};

fn pieces(text: &str) -> (Vec<String>, Option<String>) {
    let mut seg = TextSegmenter::new();
    let mut out = Vec::new();
    for c in text.chars() {
        if let Some(p) = seg.push_char(c) {
            out.push(p);
            seg.piece_done();
        }
    }
    (out, seg.remainder())
}

#[test]
fn segments_split_at_sentence_marks() {
    let (out, rest) = pieces("Hello world. How are you?\nFine! and you");
    assert_eq!(out, vec!["Hello world.", "How are you?", "Fine!"]);
    assert_eq!(rest, Some("and you".to_string()));
}

#[test]
fn segments_split_at_clause_marks_only_when_long() {
    let (out, rest) = pieces("short, clause; here: done");
    assert!(out.is_empty());
    assert_eq!(rest, Some("short, clause; here: done".to_string()));
    let long = format!("{}, tail", "a".repeat(80));
    let (out, rest) = pieces(&long);
    assert_eq!(out, vec![format!("{},", "a".repeat(80))]);
    assert_eq!(rest, Some("tail".to_string()));
}

#[test]
fn clause_length_counts_bytes() {
    // 40 two-byte characters are 80 bytes, the comma makes 81
    let text = format!("{},x", "é".repeat(40));
    let (out, _) = pieces(&text);
    assert_eq!(out, vec![format!("{},", "é".repeat(40))]);
    let text = format!("{},x", "e".repeat(79));
    let (out, _) = pieces(&text);
    assert!(out.is_empty());
}

#[test]
fn blank_pieces_are_not_synthesized() {
    let (out, rest) = pieces("  \n\n. ");
    assert_eq!(out, vec!["."]);
    assert_eq!(rest, None);
}

#[test]
fn failed_piece_grows_into_next() {
    let mut seg = TextSegmenter::new();
    let mut first = None;
    for c in "One. Two.".chars() {
        if let Some(p) = seg.push_char(c) {
            if first.is_none() {
                first = Some(p);
            } else {
                assert_eq!(p, "One. Two.");
                seg.piece_done();
            }
        }
    }
    assert_eq!(first, Some("One.".to_string()));
    assert_eq!(seg.remainder(), None);
}

#[test]
fn providers() {
    assert_eq!(onnx_provider(false, false), "cpu");
    assert_eq!(onnx_provider(false, true), "cpu");
    assert_eq!(onnx_provider(true, false), "cuda");
    assert_eq!(onnx_provider(true, true), "coreml");
}

#[test]
fn rejections() {
    assert_eq!(check_text(""), Err(TtsRejection::TextRequired));
    assert_eq!(check_text("hi"), Ok(()));
    assert_eq!(check_audio(&[]), Err(TtsRejection::GenerationFailed));
    assert_eq!(check_audio(&[1i16]), Ok(()));
    assert_eq!(TtsRejection::TextRequired.status_code(), 400);
    assert_eq!(TtsRejection::TextRequired.message(), "Text is required");
    assert_eq!(TtsRejection::GenerationFailed.status_code(), 500);
    assert_eq!(TtsRejection::GenerationFailed.message(), "Failed to generate audio");
    let q = TtsQuery { text: String::new(), voice: None };
    assert_eq!(q.check(), Err(TtsRejection::TextRequired));
    let q = TtsQuery { text: "x".to_string(), voice: Some("af".to_string()) };
    assert_eq!(q.check(), Ok(()));
}

#[test]
fn pcm_body_and_default_speaker() {
    assert_eq!(TtsController::pcm_body(&[1, -2]), vec![1u8, 0, 0xfe, 0xff]);
    assert_eq!(default_sid(), 0);
}

#[test]
fn wav_file_layout() {
    let wav = wav_body(&[1, -2], 24000);
    let mut expected: Vec<u8> = Vec::new();
    expected.extend_from_slice(b"RIFF");
    expected.extend_from_slice(&40u32.to_le_bytes());
    expected.extend_from_slice(b"WAVEfmt ");
    expected.extend_from_slice(&16u32.to_le_bytes());
    expected.extend_from_slice(&1u16.to_le_bytes());
    expected.extend_from_slice(&1u16.to_le_bytes());
    expected.extend_from_slice(&24000u32.to_le_bytes());
    expected.extend_from_slice(&48000u32.to_le_bytes());
    expected.extend_from_slice(&2u16.to_le_bytes());
    expected.extend_from_slice(&16u16.to_le_bytes());
    expected.extend_from_slice(b"data");
    expected.extend_from_slice(&4u32.to_le_bytes());
    expected.extend_from_slice(&[1u8, 0, 0xfe, 0xff]);
    assert_eq!(wav, expected);
    assert_eq!(wav_body(&[], 16000).len(), 44);
}

#[test]
fn wav_limits() {
    assert!(wav_fits(1000, 24000));
    assert!(!wav_fits(usize::MAX / 2, 24000));
    assert!(!wav_fits(10, u32::MAX));
}
