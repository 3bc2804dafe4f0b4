//! Settings of one run, their defaults, and the choice of execution mode.
use vstd::prelude::*;

verus! {

/// Language tag used when none is given.
pub const DEFAULT_LANGUAGE: &'static str = "en-us";

/// Model weights used when no path is given.
pub const DEFAULT_MODEL_PATH: &'static str = "checkpoints/kokoro-v0_19.onnx";

/// Style blend used when none is given.
pub const DEFAULT_STYLE: &'static str = "af_sarah.4+af_nicole.6";

/// Output path, or batch prefix, used when none is given.
pub const DEFAULT_OUTPUT_PATH: &'static str = "tmp/output.wav";

/// Text spoken when neither a text nor a file is given.
pub const DEFAULT_TEXT: &'static str = "Hello, This is Kokoro, your remarkable AI TTS. It's a TTS model with merely 82 million parameters yet delivers incredible audio quality.\nThis is one of the top notch Rust based inference models, and I'm sure you'll love it. If you do, please give us a star. Thank you very much.\nAs the night falls, I wish you all a peaceful and restful sleep. May your dreams be filled with joy and happiness. Good night, and sweet dreams!";

/// The four ways a run can go; exactly one applies to each run.
#[derive(Clone, Copy, Debug, PartialEq, Eq, Structural)]
pub enum Mode {
    /// Speak lines read one at a time, framing audio onto one stream.
    Stream,
    /// Serve synthesis requests over HTTP.
    Server,
    /// Speak each line of a file into a file of its own.
    Batch,
    /// Speak one text into one file.
    Single,
}

/// The mode of a run: streaming wins over serving, serving over a text that
/// names an existing file, and that over a plain text.
pub open spec fn mode_spec(stream: bool, server: bool, text_is_file: bool) -> Mode {
    if stream {
        Mode::Stream
    } else if server {
        Mode::Server
    } else if text_is_file {
        Mode::Batch
    } else {
        Mode::Single
    }
}

/// Chooses the mode from the two flags and whether the text names an
/// existing regular file.
pub fn select_mode(stream: bool, server: bool, text_is_file: bool) -> (r: Mode)
    ensures
        r == mode_spec(stream, server, text_is_file),
{
    if stream {
        Mode::Stream
    } else if server {
        Mode::Server
    } else if text_is_file {
        Mode::Batch
    } else {
        Mode::Single
    }
}

/// What a run was asked to do, with every default filled in.
#[derive(Clone, Debug, PartialEq, Eq)]
pub struct Settings {
    pub text: String,
    pub language: String,
    pub model_path: String,
    pub style: String,
    pub output_path: String,
    pub mono: bool,
    pub stream: bool,
    pub server: bool,
}

/// The given value, or the default where none was given.
pub open spec fn or_default(v: Option<String>, d: Seq<char>) -> Seq<char> {
    match v {
        Some(s) => s@,
        None => d,
    }
}

fn take_or(v: Option<String>, d: &str) -> (r: String)
    ensures
        r@ == or_default(v, d@),
{
    match v {
        Some(s) => s,
        None => String::from_str(d),
    }
}

impl Settings {
    /// Fills in the defaults of every value that was not given.
    pub fn resolve(
        text: Option<String>,
        language: Option<String>,
        model_path: Option<String>,
        style: Option<String>,
        output_path: Option<String>,
        mono: bool,
        stream: bool,
        server: bool,
    ) -> (r: Settings)
        ensures
            r.text@ == or_default(text, DEFAULT_TEXT@),
            r.language@ == or_default(language, DEFAULT_LANGUAGE@),
            r.model_path@ == or_default(model_path, DEFAULT_MODEL_PATH@),
            r.style@ == or_default(style, DEFAULT_STYLE@),
            r.output_path@ == or_default(output_path, DEFAULT_OUTPUT_PATH@),
            r.mono == mono,
            r.stream == stream,
            r.server == server,
    {
        Settings {
            text: take_or(text, DEFAULT_TEXT),
            language: take_or(language, DEFAULT_LANGUAGE),
            model_path: take_or(model_path, DEFAULT_MODEL_PATH),
            style: take_or(style, DEFAULT_STYLE),
            output_path: take_or(output_path, DEFAULT_OUTPUT_PATH),
            mono,
            stream,
            server,
        }
    }

    /// The mode of this run, given whether its text names an existing regular file.
    pub fn mode(&self, text_is_file: bool) -> (r: Mode)
        ensures
            r == mode_spec(self.stream, self.server, text_is_file),
    {
        select_mode(self.stream, self.server, text_is_file)
    }
}

} // verus!
