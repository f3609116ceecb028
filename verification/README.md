# subtitle_forge

SubtitleForge turns the speech of a video into subtitles: it extracts the
audio, recognises it with whisper.cpp, writes a subtitle in the source
language, then (optionally) translates every line and writes a bilingual
subtitle with the original text as the primary line and the translation as
the secondary one.

The crate is a Verus project. `src/` is the verified library: Verus checks
every function there, and the contracts state what each computes. The few
that ask the disk or share a counter between threads (`is_downloaded`, the
progress tracker's counts and cancel flag) state nothing of the answer; the
model managers' `list_models_with` and `check_model_with` take the disk's
answer as a function and state the rest.

- `subtitle/`: timecodes, the SRT, WebVTT and ASS writers, the SRT parser
  (with the proof that parsing a written document gives its entries back),
  and merging recognised segments with their translations.
- `asr/`: speech-region planning (merging, intersecting, splitting long
  regions, cutting the audio into overlapping chunks, with proofs that the
  chunks cover the speech and that each window holds its main range), the
  bookkeeping of a chunked transcription, the model catalogue, and the
  recogniser's build capabilities.
- `audio/`: WAV encoding and decoding (with a round-trip proof) and the
  names and durations the extractor derives.
- `translate/`: translation modes, the services' descriptors, configuration
  schemas and checks, prompts and reply parsing for language models, retry,
  cache and fallback decisions, and the plugin metadata.
- `pipeline/`: the stages of a task, the output file names and contents.
- `config/`, `logging.rs`, `commands.rs`, `error.rs`, `text.rs`: settings,
  log messages, command results, error messages and string helpers.

`app/` is the desktop application around the library: the Tauri commands,
FFmpeg, whisper.cpp, the speech detector, the HTTP requests to the
translation services, and everything that touches files, time or floating
point. It makes the calls; the library makes the decisions.

`tests/` exercises the library from outside.
