# bark_core

The speech-to-text pipeline behind `barkd`, with its logic proved by Verus.

- `src/` is the verified library: Ogg page framing and checksums, the
  Ogg/Opus stream writers, frame chunking, the voice-activity state
  machines, text normalisation, the transcription request and response
  rules, and the daemon's decisions (recording loop, control requests,
  pidfile contents, typing plans). Every function carries a contract;
  the `lemma_*` proof functions state the laws that hold across calls.
- `tests/` runs the library on concrete values.
- `app/` is the program around it: command line, configuration files,
  audio capture and playback, gain control, the neural voice detector,
  HTTP, signals and the Java bindings.
