# mrcp_synth

The verified core of a UniMRCP speech-synthesizer plugin that speaks text
through an HTTP text-to-speech service.

- `src/channel.rs`: the state of a synthesizer channel, SPEAK handling and
  how audio frames are fed from the synthesized speech, with the laws of
  playback (audio in order, full frames of a fixed size, completion once and
  right after the audio, idle channels stay idle).
- `src/message.rs`: synthesizer methods, request states, how a message
  header is obtained, and the SPEAK-COMPLETE event.
- `src/synthesis.rs`: the request body and authorization header for the
  service, and the audio read from its response (JSON through `serde_json`,
  base64 through `base64`).
- `src/logging.rs`: log priorities and the printf-safe lines written to the
  server's log.
- `src/engine.rs`: the engine's data.
- `app/`: the HTTP call (`reqwest`), the `log` crate's logger and the
  server's log-source hooks, and the locking session glue around a channel.
