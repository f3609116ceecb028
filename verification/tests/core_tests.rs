use std::path::PathBuf;

use subtitle_forge::asr::capabilities::{enabled_gpu_backends, runtime_capabilities, BuildFeatures};
use subtitle_forge::asr::engine::Segment;
use subtitle_forge::asr::models::{ModelManager, WhisperModelSize};
use subtitle_forge::asr::vad::{PlannedChunk, VadPlannerConfig};
use subtitle_forge::asr::whisper::{ChunkTranscript, WhisperEngine};
use subtitle_forge::audio::extractor::{AudioExtractor, ExtractConfig, AudioFormat};
use subtitle_forge::audio::wav::{decode_pcm16, parse_wav_header, wav_bytes, SampleEncoding, WavFormat};
use subtitle_forge::commands::{get_supported_languages, list_translate_services};
use subtitle_forge::config::settings::threads_from_counts;
use subtitle_forge::error::{AppError, AsrError, AudioError, SubtitleError, TranslateError};
use subtitle_forge::logging::record_field;
use subtitle_forge::pipeline::orchestrator::{PipelineOrchestrator, PipelineStep};
use subtitle_forge::pipeline::progress::ProgressTracker;
use subtitle_forge::subtitle::srt::SrtWriter;
use subtitle_forge::subtitle::types::{SubtitleEntry, SubtitleFile, SubtitleFormat, Timecode};
use subtitle_forge::translate::factory::build_factory;
use subtitle_forge::translate::services::embedded_llm::models::{EmbeddedModelManager, EmbeddedModelPreset};

fn segment(index: usize, start_ms: u64, end_ms: u64, text: &str, language: &str) -> Segment {
    Segment { index, start_ms, end_ms, text: text.to_string(), language: language.to_string() }
}

fn transcription_message(e: AsrError) -> String {
    match e {
        AsrError::Transcription(m) => m,
        _ => panic!("expected a transcription error"),
    }
}

#[test]
fn wav_written_then_read_gives_samples_back() {
    let samples: Vec<i16> = vec![1, -2, 300, i16::MIN, i16::MAX];
    let bytes = wav_bytes(&samples, 16_000, 1);
    assert_eq!(bytes.len(), 44 + 10);
    assert_eq!(&bytes[0..4], b"RIFF");
    assert_eq!(&bytes[8..16], b"WAVEfmt ");
    assert_eq!(&bytes[36..40], b"data");
    let format = parse_wav_header(&bytes[..44]).unwrap();
    assert_eq!(
        format,
        WavFormat { audio_format: 1, num_channels: 1, sample_rate: 16_000, bits_per_sample: 16, data_size: 10 }
    );
    assert_eq!(format.encoding().unwrap(), SampleEncoding::Pcm16);
    assert_eq!(decode_pcm16(&bytes[44..]), samples);
}

#[test]
fn wav_headers_are_checked() {
    let mut bytes = wav_bytes(&[0, 0], 16_000, 1);
    bytes[0] = b'X';
    assert_eq!(transcription_message(parse_wav_header(&bytes[..44]).unwrap_err()), "Not a valid WAV file");

    let mut float_format = wav_bytes(&[0, 0], 16_000, 1);
    float_format[20] = 3;
    assert_eq!(
        transcription_message(parse_wav_header(&float_format[..44]).unwrap_err()),
        "Unsupported WAV format: 3 (only PCM supported)"
    );

    let eight_bit = WavFormat { audio_format: 1, num_channels: 1, sample_rate: 16_000, bits_per_sample: 8, data_size: 0 };
    assert_eq!(transcription_message(eight_bit.encoding().unwrap_err()), "Unsupported bits per sample: 8");
    let float32 = WavFormat { bits_per_sample: 32, ..eight_bit };
    assert_eq!(float32.encoding().unwrap(), SampleEncoding::Float32);
    assert_eq!(decode_pcm16(&[1, 0, 2]), vec![1]);
}

#[test]
fn extractor_names_and_durations() {
    assert_eq!(AudioExtractor::audio_file_name("movie"), "movie_audio.wav");
    assert_eq!(AudioExtractor::duration_ms(12_345_678), 12_345);
    assert_eq!(AudioExtractor::duration_ms(-5), 0);
    let c = ExtractConfig::default();
    assert_eq!(c.sample_rate, 16_000);
    assert_eq!(c.channels, 1);
    assert_eq!(c.format, AudioFormat::Wav);
}

#[test]
fn pipeline_steps_in_order() {
    let mut step = PipelineStep::ExtractingAudio;
    let mut seen = vec![step];
    while step != PipelineStep::Done {
        step = PipelineOrchestrator::next_step(step, false, false);
        seen.push(step);
    }
    assert_eq!(
        seen,
        vec![
            PipelineStep::ExtractingAudio,
            PipelineStep::Transcribing,
            PipelineStep::WritingSource,
            PipelineStep::Translating,
            PipelineStep::WritingBilingual,
            PipelineStep::Done,
        ]
    );
    assert_eq!(PipelineOrchestrator::next_step(PipelineStep::WritingSource, false, true), PipelineStep::Done);
    assert_eq!(PipelineOrchestrator::next_step(PipelineStep::Translating, true, false), PipelineStep::Cancelled);
    assert_eq!(PipelineOrchestrator::next_step(PipelineStep::Cancelled, false, false), PipelineStep::Cancelled);
}

#[test]
fn pipeline_output_names() {
    assert_eq!(PipelineOrchestrator::source_output_filename("movie", "en", SubtitleFormat::Srt), "movie.en.srt");
    assert_eq!(
        PipelineOrchestrator::bilingual_output_filename("movie", "en", "zh", SubtitleFormat::Ass),
        "movie.en-zh.ass"
    );
    assert_eq!(
        PipelineOrchestrator::bilingual_output_filename("a", "ja", "en", SubtitleFormat::Vtt),
        "a.ja-en.vtt"
    );
}

#[test]
fn rendered_subtitles_start_with_a_byte_order_mark() {
    let file = SubtitleFile {
        entries: vec![SubtitleEntry {
            index: 1,
            start: Timecode::from_ms(0),
            end: Timecode::from_ms(1500),
            primary_text: "Hi".to_string(),
            secondary_text: None,
        }],
        source_language: "en".to_string(),
        target_language: None,
        format: SubtitleFormat::Srt,
    };
    let text = PipelineOrchestrator::render_subtitle(&file, SubtitleFormat::Srt);
    assert_eq!(text, format!("\u{feff}{}", SrtWriter::write(&file)));
    assert!(PipelineOrchestrator::render_subtitle(&file, SubtitleFormat::Vtt).starts_with("\u{feff}WEBVTT"));
    assert!(PipelineOrchestrator::render_subtitle(&file, SubtitleFormat::Ass).starts_with("\u{feff}[Script Info]"));
}

#[test]
fn pipeline_decisions() {
    let segments = vec![segment(0, 0, 900, "a", "ja"), segment(1, 1000, 2500, "b", "ja")];
    assert_eq!(PipelineOrchestrator::source_language(&None, &segments), "ja");
    assert_eq!(PipelineOrchestrator::source_language(&Some("en".to_string()), &segments), "en");
    assert!(PipelineOrchestrator::check_segments(&segments).is_ok());
    let empty = PipelineOrchestrator::check_segments(&[]).unwrap_err();
    assert_eq!(empty.message(), "Pipeline error: No speech detected in audio");
    assert!(PipelineOrchestrator::is_cancellation(&PipelineOrchestrator::cancelled_error()));
    assert!(!PipelineOrchestrator::is_cancellation(&AppError::Pipeline("other".to_string())));
    assert_eq!(PipelineOrchestrator::duration_ms(&segments), 2500);
    assert_eq!(PipelineOrchestrator::duration_ms(&[]), 0);
    let request = PipelineOrchestrator::translation_request(&segments, "ja", "zh");
    assert_eq!(request.texts, vec!["a".to_string(), "b".to_string()]);
    assert_eq!(request.source_lang, "ja");
    assert_eq!(request.target_lang, "zh");
    assert!(request.context_hint.is_none());
    assert_eq!(PipelineOrchestrator::asr_threads(Some(6)), 6);
    let recommended = PipelineOrchestrator::asr_threads(None);
    assert!((1..=8).contains(&recommended));
}

#[test]
fn thread_counts_are_bounded() {
    assert_eq!(threads_from_counts(4, 8), 4);
    assert_eq!(threads_from_counts(0, 6), 6);
    assert_eq!(threads_from_counts(32, 64), 8);
    assert_eq!(threads_from_counts(0, 0), 1);
}

#[test]
fn error_messages() {
    assert_eq!(
        AppError::Translate(TranslateError::Api { status: 500, message: "boom".to_string() }).message(),
        "Translation failed: API error: 500 - boom"
    );
    assert_eq!(
        TranslateError::RateLimited { retry_after_secs: 30 }.message(),
        "Rate limited, retry after 30s"
    );
    assert_eq!(
        TranslateError::UnsupportedPair { from: "en".to_string(), target: "xx".to_string() }.message(),
        "Unsupported language pair: en -> xx"
    );
    assert_eq!(
        SubtitleError::SegmentMismatch { asr: 3, translation: 2 }.message(),
        "Segment count mismatch: ASR=3, Translation=2"
    );
    assert_eq!(AsrError::ModelNotFound("tiny".to_string()).message(), "Model not found: tiny");
    assert_eq!(AudioError::NoAudioStream.message(), "No audio stream found in file");
    assert_eq!(
        AppError::Audio(AudioError::Ffmpeg("bad".to_string())).message(),
        "Audio extraction failed: FFmpeg error: bad"
    );
    let io = std::io::Error::new(std::io::ErrorKind::Other, "disk full");
    assert_eq!(AppError::Io(io).message(), "IO error: disk full");
}

#[test]
fn whisper_models() {
    for size in [
        WhisperModelSize::Tiny,
        WhisperModelSize::Base,
        WhisperModelSize::Small,
        WhisperModelSize::Medium,
        WhisperModelSize::Large,
    ] {
        assert_eq!(WhisperModelSize::from_key(size.key()), Some(size));
    }
    assert_eq!(WhisperModelSize::from_key("huge"), None);
    assert_eq!(WhisperModelSize::Large.filename(), "ggml-large-v3.bin");
    assert_eq!(WhisperModelSize::Base.size_mb(), 142);
    assert_eq!(
        WhisperModelSize::Tiny.download_url(),
        "https://huggingface.co/ggerganov/whisper.cpp/resolve/main/ggml-tiny.bin"
    );
    let expected = 75u64 * 1024 * 1024;
    assert!(WhisperModelSize::Tiny.plausible_size(expected));
    assert!(!WhisperModelSize::Tiny.plausible_size(expected * 9 / 10));
    let manager = ModelManager::new(PathBuf::from("/models"));
    assert_eq!(manager.model_path(WhisperModelSize::Small), PathBuf::from("/models/whisper/ggml-small.bin"));
}

#[test]
fn embedded_presets_round_trip() {
    for preset in EmbeddedModelPreset::all() {
        assert_eq!(EmbeddedModelPreset::from_key(preset.key()), Some(preset));
    }
    assert_eq!(EmbeddedModelPreset::from_key("none"), None);
}

#[test]
fn whisper_engine_helpers() {
    let engine = WhisperEngine::new(PathBuf::from("/m/ggml-base.bin"), false);
    assert_eq!(engine.name(), "whisper.cpp");
    let langs = engine.supported_languages();
    assert_eq!(langs.len(), 15);
    assert_eq!(langs[0].code, "auto");
    assert_eq!(WhisperEngine::format_duration(65), "01:05");
    assert_eq!(WhisperEngine::format_duration(3_725), "01:02:05");
    assert!(WhisperEngine::ensure_not_cancelled(false).is_ok());
    assert_eq!(transcription_message(WhisperEngine::ensure_not_cancelled(true).unwrap_err()), "Cancelled");

    let config = VadPlannerConfig::default();
    let planned = vec![PlannedChunk { main_start_sample: 0, main_end_sample: 10, window_start_sample: 0, window_end_sample: 10 }];
    assert_eq!(WhisperEngine::choose_chunks(planned.clone(), 100, &config), planned);
    assert_eq!(WhisperEngine::choose_chunks(Vec::new(), 100, &config).len(), 1);
    assert!(WhisperEngine::retry_chunks(true, true, 100, &config).is_none());
    assert!(WhisperEngine::retry_chunks(false, false, 100, &config).is_none());
    assert_eq!(WhisperEngine::retry_chunks(false, true, 100, &config).unwrap().len(), 1);
}

#[test]
fn transcript_keeps_segments_of_the_main_range() {
    // Main range 10 s to 20 s, window from 5 s.
    let chunk = PlannedChunk {
        main_start_sample: 160_000,
        main_end_sample: 320_000,
        window_start_sample: 80_000,
        window_end_sample: 400_000,
    };
    let mut t = ChunkTranscript::new();
    t.note_language(0, Some("fr".to_string()));
    assert_eq!(t.detected_lang, None);
    t.note_language(2, Some("en".to_string()));
    t.note_language(2, Some("de".to_string()));
    assert_eq!(t.detected_lang.as_deref(), Some("en"));

    // Midpoint at 6 s: in the leading overlap.
    assert!(!t.accept_segment(&chunk, 500, 1_500, "early"));
    // Midpoint at 11 s.
    assert!(t.accept_segment(&chunk, 5_500, 6_500, "  hello  "));
    assert!(!t.accept_segment(&chunk, 7_000, 8_000, " [Pause] "));
    assert!(!t.accept_segment(&chunk, 7_000, 8_000, "   "));
    assert!(t.accept_segment(&chunk, 9_000, 10_000, "world"));
    assert_eq!(t.segments.len(), 2);
    let expected = [(0usize, 10_500u64, 11_500u64, "hello"), (1, 14_000, 15_000, "world")];
    for (seg, (index, start, end, text)) in t.segments.iter().zip(expected) {
        assert_eq!(seg.index, index);
        assert_eq!(seg.start_ms, start);
        assert_eq!(seg.end_ms, end);
        assert_eq!(seg.text, text);
        assert_eq!(seg.language, "en");
    }
}

#[test]
fn gpu_backends_follow_build_flags() {
    let none = BuildFeatures { macos: false, metal: false, coreml: false, cuda: false, hipblas: false, opencl: false, openblas: false };
    assert!(enabled_gpu_backends(&none).is_empty());
    let caps = runtime_capabilities(&none, "1.2.3".to_string());
    assert_eq!(caps.app_version, "1.2.3");
    assert_eq!(caps.whisper_backend, "whisper.cpp");
    assert!(!caps.gpu_backend_available);
    assert_eq!(caps.features.len(), 7);
    assert!(caps.features[6].enabled);

    let mac_cuda = BuildFeatures { macos: true, cuda: true, ..none };
    let backends = enabled_gpu_backends(&mac_cuda);
    assert_eq!(backends, vec!["metal".to_string(), "cuda".to_string()]);
    assert!(runtime_capabilities(&mac_cuda, String::new()).gpu_backend_available);
}

#[test]
fn log_fields_build_the_message() {
    assert_eq!(record_field("", "message", "started"), "started");
    assert_eq!(record_field("started", "file", "a.mp4"), "started file=a.mp4");
    assert_eq!(record_field("", "count", "3"), "count=3");
}

#[test]
fn language_list_and_service_listing() {
    let langs = get_supported_languages();
    assert_eq!(langs.len(), 15);
    assert_eq!(langs[2].code, "zh");
    assert_eq!(langs[2].name, "中文");
    let factory = build_factory(PathBuf::from("/tmp/subtitle-forge-test"));
    assert_eq!(list_translate_services(&factory, Some("online_translate")).unwrap().len(), 3);
    assert_eq!(list_translate_services(&factory, None).unwrap().len(), 7);
    assert_eq!(
        list_translate_services(&factory, Some("carrier_pigeon")).unwrap_err(),
        "Unsupported mode: carrier_pigeon"
    );
}

#[test]
fn model_listings_and_checks() {
    let manager = ModelManager::new(PathBuf::from("/nonexistent/subtitle-forge-models"));
    let models = manager.list_models();
    let keys: Vec<&str> = models.iter().map(|m| m.key.as_str()).collect();
    assert_eq!(keys, vec!["tiny", "base", "small", "medium", "large"]);
    assert_eq!(models[4].name, "Large V3 (3.1 GB)");
    assert_eq!(models[1].size_mb, 142);
    assert_eq!(models[0].path, "/nonexistent/subtitle-forge-models/whisper/ggml-tiny.bin");
    assert!(models.iter().all(|m| !m.downloaded));
    assert!(!manager.is_downloaded(WhisperModelSize::Tiny));
    assert_eq!(manager.check_model("huge").unwrap_err(), "Unknown model: huge");
    assert_eq!(
        manager.check_model("tiny").unwrap_err(),
        "Whisper model 'ggml-tiny.bin' not found. Please download it in Settings > Models.\nPath: \"/nonexistent/subtitle-forge-models/whisper/ggml-tiny.bin\""
    );

    let embedded = EmbeddedModelManager::new(PathBuf::from("/nonexistent/subtitle-forge-models"));
    let listed = embedded.list_models();
    assert_eq!(listed.len(), 3);
    assert_eq!(listed[0].key, "qwen2.5-1.5b-instruct-q4km");
    assert_eq!(listed[2].model_id, "llama-3.2-3b-instruct");
    assert_eq!(listed[1].size_mb, 1900);
    assert_eq!(embedded.check_model("x").unwrap_err(), "Unknown embedded model: x");
    assert!(embedded.check_model("qwen2.5-1.5b-instruct-q4km").is_err());
}

#[test]
fn model_paths_and_presence_answers() {
    let manager = ModelManager::new(PathBuf::from("/m"));
    assert_eq!(manager.model_path(WhisperModelSize::Base), PathBuf::from("/m/whisper/ggml-base.bin"));
    let listed = manager.list_models_with(|p: &PathBuf| p.ends_with("ggml-small.bin"));
    let flags: Vec<bool> = listed.iter().map(|m| m.downloaded).collect();
    assert_eq!(flags, vec![false, false, true, false, false]);
    assert_eq!(listed[2].path, "/m/whisper/ggml-small.bin");
    assert_eq!(
        manager.check_model_with("large", |_: &PathBuf| true).unwrap(),
        PathBuf::from("/m/whisper/ggml-large-v3.bin")
    );
    assert_eq!(
        manager.check_model_with("base", |_: &PathBuf| false).unwrap_err(),
        "Whisper model 'ggml-base.bin' not found. Please download it in Settings > Models.\nPath: \"/m/whisper/ggml-base.bin\""
    );

    let embedded = EmbeddedModelManager::new(PathBuf::from("/m"));
    assert_eq!(
        embedded.model_path(EmbeddedModelPreset::Qwen25_3B),
        PathBuf::from("/m/embedded_llm/Qwen2.5-3B-Instruct-Q4_K_M.gguf")
    );
    let presets = embedded.list_models_with(|_: &PathBuf| true);
    assert!(presets.iter().all(|m| m.downloaded));
    assert_eq!(presets[2].path, "/m/embedded_llm/Llama-3.2-3B-Instruct-Q4_K_M.gguf");
    assert_eq!(
        embedded.check_model_with("qwen2.5-1.5b-instruct-q4km", |_: &PathBuf| true).unwrap(),
        PathBuf::from("/m/embedded_llm/Qwen2.5-1.5B-Instruct-Q4_K_M.gguf")
    );
    assert_eq!(
        embedded.check_model_with("qwen2.5-3b-instruct-q4km", |_: &PathBuf| false).unwrap_err(),
        "Embedded LLM model 'Qwen2.5-3B-Instruct-Q4_K_M.gguf' not found. Please download it in Settings.\nPath: \"/m/embedded_llm/Qwen2.5-3B-Instruct-Q4_K_M.gguf\""
    );
}

#[test]
fn progress_tracker_counts_and_cancels() {
    let tracker = ProgressTracker::new(10);
    assert_eq!(tracker.counts(), (0, 10));
    tracker.increment(3);
    tracker.increment(2);
    assert_eq!(tracker.counts(), (5, 10));
    tracker.set_current(9);
    let shared = tracker.clone();
    assert_eq!(shared.counts(), (9, 10));
    assert!(!tracker.is_cancelled());
    shared.cancel();
    assert!(tracker.is_cancelled());
}
