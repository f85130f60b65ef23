# speech_translator

The core of a real-time speech translator (audio capture → speech
recognition → translation → subtitle overlay), written in Verus.

- `src/` — the verified library:
  - `text` — trimming, prefix and suffix handling, ordering and formatting
    of text, each with its specification;
  - `audio` — the devices offered for capture (which sessions are listed,
    naming, ordering, one entry per process) and the integer side of audio
    conversion (decimation to 16 kHz, 100 ms chunking);
  - `asr` — recognizer events and engine choice; `asr::deepgram` holds the
    streaming session's decisions and encodings, `asr::whisper` the
    silence-based segmentation and the model's output handling;
  - `translation` — the translation engine with its memory of earlier
    results, over any `TranslationBackend`, and the reading of service replies;
  - `pipeline` — sentence numbering, counters and the events shown to the user
    (a transcription is reported before its translation is asked for);
  - `commands`, `state` — validation of languages and settings, errors, the
    default settings and what the frontend sees of them (never the API key).
- `app/` — the desktop host: Tauri commands, WASAPI capture, the Deepgram
  WebSocket, whisper-rs inference, HTTP translation services, threads and
  floating-point audio processing.
- `tests/` — tests of the library on concrete values.
