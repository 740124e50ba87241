# speech_server

A speech server's decision logic, verified with Verus.

- `src/pcm.rs`: 16-bit little-endian PCM decoding and encoding, and the mean-level
  measure by which audio counts as quiet.
- `src/text.rs`: Unicode trimming and character helpers.
- `src/config.rs`: settings with defaults; decimal and boolean setting parsers.
- `src/stt/service.rs`: the transcription state machine (partial results with the new
  words and the whole transcript every 500 ms, a final result after a quiet tail or on
  `finalize`, `reset`, a 60 s buffer limit), transcript assembly, and the laws over any
  sequence of events.
- `src/stt/handler.rs`: the plain socket's session, the same machine in its plain mode.
- `src/stt/controller.rs`: the JSON messages that carry results, with JSON string escaping
  stated.
- `src/tts/`: text segmentation for streaming synthesis, request refusals, the PCM reply
  body and the WAV file.
- `app/`: the HTTP/WebSocket server around the library, with the Whisper and sherpa-onnx
  calls.

The processor and session are state machines: they say which samples to transcribe and
resume with the transcript, so the engines run in `app/`.
