use speech_server::pcm::encode_pcm16;
use speech_server::stt::controller::SttController;
use speech_server::stt::handler::SocketSession;
use speech_server::stt::service::{
    decode_plan, model_path, transcript_from_segments, StreamAction, StreamProcessor,
    TranscriptionResult,
};

fn tone(n: usize) -> Vec<u8> {
    let samples: Vec<i16> = (0..n).map(|i| if i % 2 == 0 { 8000 } else { -8000 }).collect();
    encode_pcm16(&samples)
}

fn hush(n: usize) -> Vec<u8> {
    encode_pcm16(&vec![0i16; n])
}

fn segs(texts: &[&str]) -> Option<Vec<Option<String>>> {
    Some(texts.iter().map(|t| Some(t.to_string())).collect())
}

fn partial(text: &str, full: &str) -> TranscriptionResult {
    TranscriptionResult::Partial { text: text.to_string(), full_text: full.to_string() }
}

fn fin(t: &str) -> TranscriptionResult {
    TranscriptionResult::Final(t.to_string())
}

fn object(members: &[(&str, &str)]) -> String {
    let mut map = serde_json::Map::new();
    for (k, v) in members.iter().rev() {
        map.insert(k.to_string(), serde_json::Value::String(v.to_string()));
    }
    serde_json::Value::Object(map).to_string()
}

#[test]
fn transcript_joins_trims_and_skips_bad_segments() {
    let run = Some(vec![Some(" Hello".to_string()), None, Some(" world. ".to_string())]);
    assert_eq!(transcript_from_segments(run), Some("Hello world.".to_string()));
}

#[test]
fn transcript_is_none_when_run_failed_or_empty() {
    assert_eq!(transcript_from_segments(None), None);
    assert_eq!(transcript_from_segments(Some(vec![])), None);
    assert_eq!(transcript_from_segments(Some(vec![Some("  \n".to_string()), None])), None);
}

#[test]
fn model_path_is_under_models() {
    assert_eq!(model_path("ggml-small.en.bin"), "models/ggml-small.en.bin");
}

#[test]
fn decode_plan_skips_silence_and_defaults_language() {
    assert_eq!(decode_plan(&[0i16; 100], 4, None), None);
    assert_eq!(decode_plan(&[8000i16; 100], 4, None), Some((4, "auto")));
    assert_eq!(decode_plan(&[8000i16; 100], 2, Some("de")), Some((2, "de")));
}

#[test]
fn payloads_match_serde_json_objects() {
    let cases = [
        (partial("two", "one two"), object(&[("type", "partial"), ("text", "two"), ("full_text", "one two")])),
        (fin("say \"hi\"\n\\ok\u{1}\u{1f}\u{8}\u{c}\r\t"), object(&[("type", "final"), ("text", "say \"hi\"\n\\ok\u{1}\u{1f}\u{8}\u{c}\r\t")])),
        (TranscriptionResult::Reset, object(&[("type", "reset"), ("text", "")])),
    ];
    for (result, expected) in cases {
        assert_eq!(SttController::result_payload(&result), expected);
    }
}

#[test]
fn payload_exact_text() {
    assert_eq!(
        SttController::result_payload(&partial("two", "one two")),
        "{\"full_text\":\"one two\",\"text\":\"two\",\"type\":\"partial\"}"
    );
    assert_eq!(
        SttController::result_payload(&fin("a \"b\"\u{1}")),
        "{\"text\":\"a \\\"b\\\"\\u0001\",\"type\":\"final\"}"
    );
    assert_eq!(SttController::result_payload(&TranscriptionResult::Reset), "{\"text\":\"\",\"type\":\"reset\"}");
}

#[test]
fn kinds() {
    assert_eq!(partial("x", "x").kind(), "partial");
    assert_eq!(fin("y").kind(), "final");
    assert_eq!(TranscriptionResult::Reset.kind(), "reset");
}

#[test]
fn processor_waits_for_half_a_second() {
    let mut p = StreamProcessor::new();
    assert_eq!(p.process_audio(&tone(7999)), StreamAction::Emit(vec![]));
    assert_eq!(p.process_audio(&tone(1)), StreamAction::Transcribe { start: 0, end: 8000 });
    assert!(p.is_awaiting_transcript());
    assert_eq!(p.resume(segs(&["hello"])), StreamAction::Emit(vec![partial("hello", "hello")]));
    assert!(!p.is_awaiting_transcript());
}

#[test]
fn processor_skips_quiet_windows() {
    let mut p = StreamProcessor::new();
    assert_eq!(p.process_audio(&hush(8000)), StreamAction::Emit(vec![]));
    assert_eq!(p.samples().len(), 8000);
}

#[test]
fn processor_splits_new_words_from_whole_transcript() {
    let mut p = StreamProcessor::new();
    assert_eq!(p.process_audio(&tone(8000)), StreamAction::Transcribe { start: 0, end: 8000 });
    assert_eq!(p.resume(segs(&["one"])), StreamAction::Emit(vec![partial("one", "one")]));
    assert_eq!(p.process_audio(&tone(8000)), StreamAction::Transcribe { start: 0, end: 16000 });
    // 8000 * 1 / 16000 = 0: the one segment counts as new words
    assert_eq!(p.resume(segs(&["one"])), StreamAction::Emit(vec![partial("one", "one")]));
    assert_eq!(p.process_audio(&tone(8000)), StreamAction::Transcribe { start: 0, end: 24000 });
    assert_eq!(p.resume(None), StreamAction::Emit(vec![]));
    assert_eq!(p.process_audio(&tone(8000)), StreamAction::Transcribe { start: 0, end: 32000 });
    // 24000 of 32000 samples were transcribed before: segments from 24000 * 2 / 32000 = 1 on are new
    assert_eq!(p.resume(segs(&[" one", " two"])), StreamAction::Emit(vec![partial("two", "one two")]));
}

#[test]
fn processor_keeps_last_transcript_when_nothing_new_is_said() {
    let mut p = StreamProcessor::new();
    p.process_audio(&tone(8000));
    assert_eq!(p.resume(segs(&["a"])), StreamAction::Emit(vec![partial("a", "a")]));
    p.process_audio(&tone(8000));
    // segments from 8000 * 2 / 16000 = 1 on are new: none has text
    assert_eq!(p.resume(Some(vec![Some("b".to_string()), None])), StreamAction::Emit(vec![]));
    p.process_audio(&tone(8000));
    // 16000 * 1 / 24000 = 0: the whole transcript is new
    assert_eq!(p.resume(segs(&["b"])), StreamAction::Emit(vec![partial("b", "b")]));
}

#[test]
fn processor_closes_sentence_after_quiet_tail() {
    let mut p = StreamProcessor::new();
    assert_eq!(p.process_audio(&tone(8000)), StreamAction::Transcribe { start: 0, end: 8000 });
    assert_eq!(p.resume(segs(&["hello"])), StreamAction::Emit(vec![partial("hello", "hello")]));
    assert_eq!(p.process_audio(&hush(19200)), StreamAction::Transcribe { start: 0, end: 27200 });
    assert_eq!(p.resume(segs(&["hello"])), StreamAction::Transcribe { start: 0, end: 27200 });
    assert_eq!(
        p.resume(segs(&["hello there"])),
        StreamAction::Emit(vec![partial("hello", "hello"), fin("hello there")])
    );
    assert!(p.samples().is_empty());
    assert_eq!(p.process_audio(&tone(8000)), StreamAction::Transcribe { start: 0, end: 8000 });
    assert_eq!(p.resume(segs(&["hello"])), StreamAction::Emit(vec![partial("hello", "hello")]));
}

#[test]
fn processor_final_falls_back_to_last_partial() {
    let mut p = StreamProcessor::new();
    p.process_audio(&tone(8000));
    p.resume(segs(&["first"]));
    assert_eq!(p.process_audio(&hush(19200)), StreamAction::Transcribe { start: 0, end: 27200 });
    assert_eq!(p.resume(segs(&["first", " second"])), StreamAction::Transcribe { start: 0, end: 27200 });
    assert_eq!(
        p.resume(None),
        StreamAction::Emit(vec![partial("first second", "first second"), fin("first second")])
    );
}

#[test]
fn processor_ends_sentence_without_result_when_nothing_was_said() {
    let mut p = StreamProcessor::new();
    assert_eq!(p.process_audio(&tone(100)), StreamAction::Emit(vec![]));
    assert_eq!(p.process_audio(&hush(19200)), StreamAction::Emit(vec![]));
    assert!(p.samples().is_empty());
}

#[test]
fn processor_whole_quiet_sentence_repeats_last_partial() {
    let mut p = StreamProcessor::new();
    let faint: Vec<i16> = vec![2000; 8000];
    assert_eq!(p.process_audio(&encode_pcm16(&faint)), StreamAction::Transcribe { start: 0, end: 8000 });
    assert_eq!(p.resume(segs(&["hm"])), StreamAction::Emit(vec![partial("hm", "hm")]));
    assert_eq!(p.process_audio(&hush(40000)), StreamAction::Emit(vec![fin("hm")]));
    assert!(p.samples().is_empty());
}

#[test]
fn processor_window_is_the_last_thirty_seconds() {
    let mut p = StreamProcessor::new();
    assert_eq!(p.process_audio(&tone(500000)), StreamAction::Transcribe { start: 20000, end: 500000 });
    assert_eq!(p.resume(None), StreamAction::Emit(vec![]));
}

#[test]
fn processor_drops_old_audio_past_sixty_seconds() {
    let mut p = StreamProcessor::new();
    for _ in 0..3 {
        let a = p.process_audio(&tone(320000));
        assert!(matches!(a, StreamAction::Transcribe { .. }));
        assert_eq!(p.resume(None), StreamAction::Emit(vec![]));
    }
    assert_eq!(p.samples().len(), 960000);
    assert_eq!(p.process_audio(&tone(1)), StreamAction::Emit(vec![]));
    assert_eq!(p.samples().len(), 480001);
}

#[test]
fn processor_finalize_transcribes_and_closes() {
    let mut p = StreamProcessor::new();
    p.process_audio(&tone(8000));
    p.resume(segs(&["hi"]));
    assert_eq!(p.finalize(), StreamAction::Transcribe { start: 0, end: 8000 });
    assert_eq!(p.resume(segs(&["hi there"])), StreamAction::Emit(vec![fin("hi there")]));
    assert!(p.samples().is_empty());
}

#[test]
fn processor_finalize_falls_back_and_says_nothing_without_transcript() {
    let mut p = StreamProcessor::new();
    p.process_audio(&tone(8000));
    p.resume(segs(&["hi"]));
    assert_eq!(p.finalize(), StreamAction::Transcribe { start: 0, end: 8000 });
    assert_eq!(p.resume(None), StreamAction::Emit(vec![fin("hi")]));
    assert_eq!(p.process_audio(&hush(100)), StreamAction::Emit(vec![]));
    assert_eq!(p.finalize(), StreamAction::Emit(vec![]));
    assert!(p.samples().is_empty());
}

#[test]
fn processor_reset_clears_and_confirms() {
    let mut p = StreamProcessor::new();
    p.process_audio(&tone(8000));
    p.resume(segs(&["hi"]));
    assert_eq!(p.reset(), StreamAction::Emit(vec![TranscriptionResult::Reset]));
    assert!(p.samples().is_empty());
    assert_eq!(p.process_audio(&tone(8000)), StreamAction::Transcribe { start: 0, end: 8000 });
    assert_eq!(p.resume(segs(&["hi"])), StreamAction::Emit(vec![partial("hi", "hi")]));
}

#[test]
fn session_transcribes_whole_sentence_and_finalizes_with_last_partial() {
    let mut s = SocketSession::new();
    assert_eq!(s.receive_audio(&tone(8000)), StreamAction::Transcribe { start: 0, end: 8000 });
    assert_eq!(s.resume(segs(&["hi"])), StreamAction::Emit(vec![partial("hi", "hi")]));
    assert_eq!(s.receive_audio(&hush(16000)), StreamAction::Emit(vec![fin("hi")]));
    assert!(s.samples().is_empty());
    assert!(!s.is_awaiting_transcript());
}

#[test]
fn session_skips_when_recent_audio_is_quiet() {
    let mut s = SocketSession::new();
    let mut samples = vec![8000i16; 4000];
    samples.extend(vec![0i16; 4000]);
    assert_eq!(s.receive_audio(&encode_pcm16(&samples)), StreamAction::Emit(vec![]));
    assert_eq!(s.samples().len(), 8000);
}

#[test]
fn session_reports_new_words() {
    let mut s = SocketSession::new();
    s.receive_audio(&tone(8000));
    assert_eq!(s.resume(segs(&["a"])), StreamAction::Emit(vec![partial("a", "a")]));
    assert_eq!(s.receive_audio(&tone(8000)), StreamAction::Transcribe { start: 0, end: 16000 });
    // 8000 * 2 / 16000 = 1: the second segment holds the new words
    assert_eq!(s.resume(segs(&["a", " b"])), StreamAction::Emit(vec![partial("b", "a b")]));
    assert_eq!(s.receive_audio(&tone(8000)), StreamAction::Transcribe { start: 0, end: 24000 });
    // 16000 * 2 / 24000 = 1: nothing new after the first segment
    assert_eq!(s.resume(Some(vec![Some("a b".to_string()), None])), StreamAction::Emit(vec![]));
}

#[test]
fn session_quiet_second_without_transcript_clears_silently() {
    let mut s = SocketSession::new();
    assert_eq!(s.receive_audio(&hush(16000)), StreamAction::Emit(vec![]));
    assert!(s.samples().is_empty());
}

#[test]
fn session_drops_old_audio_past_sixty_seconds() {
    let mut s = SocketSession::new();
    for _ in 0..3 {
        s.receive_audio(&tone(320000));
        s.resume(None);
    }
    assert_eq!(s.samples().len(), 960000);
    s.receive_audio(&tone(1));
    assert_eq!(s.samples().len(), 480001);
}

#[test]
fn session_finalize_and_reset() {
    let mut s = SocketSession::new();
    s.receive_audio(&tone(8000));
    s.resume(segs(&["one"]));
    assert_eq!(s.finalize(), StreamAction::Transcribe { start: 0, end: 8000 });
    assert_eq!(s.resume(segs(&["one more"])), StreamAction::Emit(vec![fin("one more")]));
    assert!(s.samples().is_empty());
    s.receive_audio(&tone(100));
    assert_eq!(s.reset(), StreamAction::Emit(vec![TranscriptionResult::Reset]));
    assert!(s.samples().is_empty());
}

#[test]
fn processor_sends_new_words_even_when_transcript_repeats() {
    let mut p = StreamProcessor::new();
    p.process_audio(&tone(8000));
    assert_eq!(p.resume(segs(&["a", " b"])), StreamAction::Emit(vec![partial("a b", "a b")]));
    p.process_audio(&tone(8000));
    // 8000 * 2 / 16000 = 1: "b" is new, though the whole transcript is the same
    assert_eq!(p.resume(segs(&["a", " b"])), StreamAction::Emit(vec![partial("b", "a b")]));
}

#[test]
fn processor_after_closing_answers_like_a_new_one() {
    let mut used = StreamProcessor::new();
    used.process_audio(&tone(8000));
    used.resume(segs(&["x"]));
    assert_eq!(used.process_audio(&hush(19200)), StreamAction::Transcribe { start: 0, end: 27200 });
    used.resume(segs(&["x"]));
    used.resume(None);
    let mut fresh = StreamProcessor::new();
    for chunk in [tone(8000), tone(8000)] {
        let a = used.process_audio(&chunk);
        let b = fresh.process_audio(&chunk);
        assert_eq!(a, b);
        assert_eq!(used.resume(segs(&["y", " z"])), fresh.resume(segs(&["y", " z"])));
    }
}
