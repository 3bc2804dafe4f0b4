use koko::invocation::{
    select_mode, Mode, Settings, DEFAULT_LANGUAGE, DEFAULT_MODEL_PATH, DEFAULT_OUTPUT_PATH,
    DEFAULT_STYLE, DEFAULT_TEXT,
};

#[test]
fn existing_file_text_is_batch() {
    assert_eq!(select_mode(false, false, true), Mode::Batch);
}

#[test]
fn plain_text_is_single() {
    assert_eq!(select_mode(false, false, false), Mode::Single);
}

#[test]
fn stream_flag_wins() {
    assert_eq!(select_mode(true, true, true), Mode::Stream);
    assert_eq!(select_mode(true, false, false), Mode::Stream);
}

#[test]
fn server_flag_beats_file() {
    assert_eq!(select_mode(false, true, true), Mode::Server);
    assert_eq!(select_mode(false, true, false), Mode::Server);
}

#[test]
fn defaults_fill_everything() {
    let s = Settings::resolve(None, None, None, None, None, false, false, false);
    assert_eq!(s.text, DEFAULT_TEXT);
    assert_eq!(s.language, "en-us");
    assert_eq!(s.model_path, "checkpoints/kokoro-v0_19.onnx");
    assert_eq!(s.style, "af_sarah.4+af_nicole.6");
    assert_eq!(s.output_path, "tmp/output.wav");
    assert_eq!(s.language, DEFAULT_LANGUAGE);
    assert_eq!(s.model_path, DEFAULT_MODEL_PATH);
    assert_eq!(s.style, DEFAULT_STYLE);
    assert_eq!(s.output_path, DEFAULT_OUTPUT_PATH);
}

#[test]
fn no_text_no_flags_speaks_fallback_once() {
    let s = Settings::resolve(None, None, None, None, None, false, false, false);
    assert_eq!(s.mode(false), Mode::Single);
    assert_eq!(s.text, DEFAULT_TEXT);
    assert_eq!(s.output_path, "tmp/output.wav");
}

#[test]
fn given_values_are_kept() {
    let s = Settings::resolve(
        Some("hello".to_string()),
        Some("fr-fr".to_string()),
        Some("m.onnx".to_string()),
        Some("af_sky.4".to_string()),
        Some("out/x.wav".to_string()),
        true,
        false,
        true,
    );
    assert_eq!(s.text, "hello");
    assert_eq!(s.language, "fr-fr");
    assert_eq!(s.model_path, "m.onnx");
    assert_eq!(s.style, "af_sky.4");
    assert_eq!(s.output_path, "out/x.wav");
    assert!(s.mono);
    assert_eq!(s.mode(false), Mode::Server);
}
