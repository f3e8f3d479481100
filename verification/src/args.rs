use vstd::prelude::*;

verus! {

/// What the program was asked to do.
pub enum AppMode {
    /// Transcribe the audio of a video file into text files in a directory.
    FileTranscription { input_video: String, output_dir: String, language: String },
    /// Transcribe live audio into a file until stopped.
    LiveCapture {
        output_file: String,
        audio_device: Option<String>,
        language: String,
        system_audio: bool,
    },
}

/// The abstract value of an `AppMode`: its strings as character sequences.
pub enum ModeView {
    FileTranscription { input_video: Seq<char>, output_dir: Seq<char>, language: Seq<char> },
    LiveCapture {
        output_file: Seq<char>,
        audio_device: Option<Seq<char>>,
        language: Seq<char>,
        system_audio: bool,
    },
}

/// A required option that the command line lacks.
#[derive(Debug, Clone, Copy, PartialEq, Eq, Structural)]
pub enum ArgsError {
    /// `--live` was given without `--output-file`.
    MissingOutputFile,
    /// File mode without `--input-video`.
    MissingInputVideo,
    /// File mode without `--output-dir`.
    MissingOutputDir,
}

/// The options seen so far while scanning the command line.
pub struct Flags {
    pub input_video: Option<Seq<char>>,
    pub output_dir: Option<Seq<char>>,
    pub output_file: Option<Seq<char>>,
    pub audio_device: Option<Seq<char>>,
    pub language: Seq<char>,
    pub live: bool,
    pub system_audio: bool,
}

pub open spec fn opt_view(s: Option<String>) -> Option<Seq<char>> {
    match s {
        Some(v) => Some(v@),
        None => None,
    }
}

impl View for AppMode {
    type V = ModeView;

    open spec fn view(&self) -> ModeView {
        match self {
            AppMode::FileTranscription { input_video, output_dir, language } => ModeView::FileTranscription {
                input_video: input_video@,
                output_dir: output_dir@,
                language: language@,
            },
            AppMode::LiveCapture { output_file, audio_device, language, system_audio } => ModeView::LiveCapture {
                output_file: output_file@,
                audio_device: opt_view(*audio_device),
                language: language@,
                system_audio: *system_audio,
            },
        }
    }
}

/// The options before any argument is read: Portuguese, file mode.
pub open spec fn initial_flags() -> Flags {
    Flags {
        input_video: None,
        output_dir: None,
        output_file: None,
        audio_device: None,
        language: "pt"@,
        live: false,
        system_audio: false,
    }
}

/// The argument after position `i`, if there is one.
pub open spec fn value_after(args: Seq<Seq<char>>, i: int) -> Option<Seq<char>> {
    if i + 1 < args.len() {
        Some(args[i + 1])
    } else {
        None
    }
}

/// Reads the arguments from position `i` on, in order. An option that takes
/// a value takes the next argument, whatever it is, and that argument is not
/// read as an option; an option given twice keeps its last value; anything
/// unknown is skipped. `--language` without a value keeps the language.
pub open spec fn scan_flags(args: Seq<Seq<char>>, i: int, f: Flags) -> Flags
    decreases args.len() + 1 - i,
{
    if i < 0 || i >= args.len() {
        f
    } else {
        let a = args[i];
        if a == "--live"@ {
            scan_flags(args, i + 1, Flags { live: true, ..f })
        } else if a == "--system-audio"@ {
            scan_flags(args, i + 1, Flags { system_audio: true, ..f })
        } else if a == "--input-video"@ {
            scan_flags(args, i + 2, Flags { input_video: value_after(args, i), ..f })
        } else if a == "--output-dir"@ {
            scan_flags(args, i + 2, Flags { output_dir: value_after(args, i), ..f })
        } else if a == "--output-file"@ {
            scan_flags(args, i + 2, Flags { output_file: value_after(args, i), ..f })
        } else if a == "--audio-device"@ {
            scan_flags(args, i + 2, Flags { audio_device: value_after(args, i), ..f })
        } else if a == "--language"@ {
            scan_flags(
                args,
                i + 2,
                Flags {
                    language: match value_after(args, i) {
                        Some(l) => l,
                        None => f.language,
                    },
                    ..f
                },
            )
        } else {
            scan_flags(args, i + 1, f)
        }
    }
}

/// The mode that the options ask for, or the first required option missing.
pub open spec fn mode_of(f: Flags) -> Result<ModeView, ArgsError> {
    if f.live {
        match f.output_file {
            Some(output_file) => Ok(
                ModeView::LiveCapture {
                    output_file,
                    audio_device: f.audio_device,
                    language: f.language,
                    system_audio: f.system_audio,
                },
            ),
            None => Err(ArgsError::MissingOutputFile),
        }
    } else {
        match (f.input_video, f.output_dir) {
            (Some(input_video), Some(output_dir)) => Ok(
                ModeView::FileTranscription { input_video, output_dir, language: f.language },
            ),
            (None, _) => Err(ArgsError::MissingInputVideo),
            (Some(_), None) => Err(ArgsError::MissingOutputDir),
        }
    }
}

/// What a command line asks for; `args[0]`, the program's name, is not read.
pub open spec fn parse_outcome(args: Seq<Seq<char>>) -> Result<ModeView, ArgsError> {
    mode_of(scan_flags(args, 1, initial_flags()))
}

pub open spec fn args_view(args: Seq<String>) -> Seq<Seq<char>> {
    args.map_values(|s: String| s@)
}

pub open spec fn outcome_view(r: Result<AppMode, ArgsError>) -> Result<ModeView, ArgsError> {
    match r {
        Ok(m) => Ok(m@),
        Err(e) => Err(e),
    }
}

/// An option that does not occur among the arguments from position `i` on
/// keeps the value it had.
proof fn lemma_absent_option_kept(args: Seq<Seq<char>>, i: int, f: Flags)
    ensures
        (forall|k: int| i <= k < args.len() ==> args[k] != "--language"@) ==> scan_flags(
            args,
            i,
            f,
        ).language == f.language,
        (forall|k: int| i <= k < args.len() ==> args[k] != "--output-file"@) ==> scan_flags(
            args,
            i,
            f,
        ).output_file == f.output_file,
        (forall|k: int| i <= k < args.len() ==> args[k] != "--live"@) ==> scan_flags(
            args,
            i,
            f,
        ).live == f.live,
        (forall|k: int| i <= k < args.len() ==> args[k] != "--system-audio"@) ==> scan_flags(
            args,
            i,
            f,
        ).system_audio == f.system_audio,
        (forall|k: int| i <= k < args.len() ==> args[k] != "--audio-device"@) ==> scan_flags(
            args,
            i,
            f,
        ).audio_device == f.audio_device,
        (forall|k: int| i <= k < args.len() ==> args[k] != "--input-video"@) ==> scan_flags(
            args,
            i,
            f,
        ).input_video == f.input_video,
        (forall|k: int| i <= k < args.len() ==> args[k] != "--output-dir"@) ==> scan_flags(
            args,
            i,
            f,
        ).output_dir == f.output_dir,
        f.live ==> scan_flags(args, i, f).live,
        f.system_audio ==> scan_flags(args, i, f).system_audio,
    decreases args.len() + 1 - i,
{
    if 0 <= i < args.len() {
        let a = args[i];
        if a == "--live"@ {
            lemma_absent_option_kept(args, i + 1, Flags { live: true, ..f });
        } else if a == "--system-audio"@ {
            lemma_absent_option_kept(args, i + 1, Flags { system_audio: true, ..f });
        } else if a == "--input-video"@ {
            lemma_absent_option_kept(args, i + 2, Flags { input_video: value_after(args, i), ..f });
        } else if a == "--output-dir"@ {
            lemma_absent_option_kept(args, i + 2, Flags { output_dir: value_after(args, i), ..f });
        } else if a == "--output-file"@ {
            lemma_absent_option_kept(args, i + 2, Flags { output_file: value_after(args, i), ..f });
        } else if a == "--audio-device"@ {
            lemma_absent_option_kept(args, i + 2, Flags { audio_device: value_after(args, i), ..f });
        } else if a == "--language"@ {
            let l = match value_after(args, i) {
                Some(l) => l,
                None => f.language,
            };
            lemma_absent_option_kept(args, i + 2, Flags { language: l, ..f });
        } else {
            lemma_absent_option_kept(args, i + 1, f);
        }
    }
}

/// Without a `--language` option the transcription language is Portuguese
/// (`pt`), in either mode.
pub proof fn lemma_default_language(args: Seq<Seq<char>>)
    requires
        forall|k: int| 1 <= k < args.len() ==> args[k] != "--language"@,
    ensures
        match parse_outcome(args) {
            Ok(ModeView::FileTranscription { language, .. }) => language == "pt"@,
            Ok(ModeView::LiveCapture { language, .. }) => language == "pt"@,
            Err(_) => true,
        },
{
    lemma_absent_option_kept(args, 1, initial_flags());
}

/// Live capture needs an output file: a command line without
/// `--output-file` never parses into live capture.
pub proof fn lemma_live_needs_output_file(args: Seq<Seq<char>>)
    requires
        forall|k: int| 1 <= k < args.len() ==> args[k] != "--output-file"@,
    ensures
        !(parse_outcome(args) is Ok && parse_outcome(args)->Ok_0 is LiveCapture),
        scan_flags(args, 1, initial_flags()).live ==> parse_outcome(args) == Err::<ModeView, ArgsError>(
            ArgsError::MissingOutputFile,
        ),
{
    lemma_absent_option_kept(args, 1, initial_flags());
}

/// Without `--live` the program transcribes a file.
pub proof fn lemma_file_mode_without_live(args: Seq<Seq<char>>)
    requires
        forall|k: int| 1 <= k < args.len() ==> args[k] != "--live"@,
    ensures
        !(parse_outcome(args) is Ok && parse_outcome(args)->Ok_0 is LiveCapture),
{
    lemma_absent_option_kept(args, 1, initial_flags());
}


/// The option names are all different.
proof fn lemma_option_names_differ()
    ensures
        "--live"@ != "--system-audio"@,
        "--live"@ != "--input-video"@,
        "--live"@ != "--output-dir"@,
        "--live"@ != "--output-file"@,
        "--live"@ != "--audio-device"@,
        "--live"@ != "--language"@,
        "--system-audio"@ != "--input-video"@,
        "--system-audio"@ != "--output-dir"@,
        "--system-audio"@ != "--output-file"@,
        "--system-audio"@ != "--audio-device"@,
        "--system-audio"@ != "--language"@,
        "--input-video"@ != "--output-dir"@,
        "--input-video"@ != "--output-file"@,
        "--input-video"@ != "--audio-device"@,
        "--input-video"@ != "--language"@,
        "--output-dir"@ != "--output-file"@,
        "--output-dir"@ != "--audio-device"@,
        "--output-dir"@ != "--language"@,
        "--output-file"@ != "--audio-device"@,
        "--output-file"@ != "--language"@,
        "--audio-device"@ != "--language"@,
{
    reveal_strlit("--live");
    reveal_strlit("--system-audio");
    reveal_strlit("--input-video");
    reveal_strlit("--output-dir");
    reveal_strlit("--output-file");
    reveal_strlit("--audio-device");
    reveal_strlit("--language");
    assert("--live"@.len() != "--system-audio"@.len());
    assert("--live"@.len() != "--input-video"@.len());
    assert("--live"@.len() != "--output-dir"@.len());
    assert("--live"@.len() != "--output-file"@.len());
    assert("--live"@.len() != "--audio-device"@.len());
    assert("--live"@.len() != "--language"@.len());
    assert("--system-audio"@.len() != "--input-video"@.len());
    assert("--system-audio"@.len() != "--output-dir"@.len());
    assert("--system-audio"@.len() != "--output-file"@.len());
    assert("--system-audio"@[2] != "--audio-device"@[2]);
    assert("--system-audio"@.len() != "--language"@.len());
    assert("--input-video"@.len() != "--output-dir"@.len());
    assert("--input-video"@[2] != "--output-file"@[2]);
    assert("--input-video"@.len() != "--audio-device"@.len());
    assert("--input-video"@.len() != "--language"@.len());
    assert("--output-dir"@.len() != "--output-file"@.len());
    assert("--output-dir"@.len() != "--audio-device"@.len());
    assert("--output-dir"@.len() != "--language"@.len());
    assert("--output-file"@.len() != "--audio-device"@.len());
    assert("--output-file"@.len() != "--language"@.len());
    assert("--audio-device"@.len() != "--language"@.len());
}

/// System audio is captured only when asked for: a command line without
/// `--system-audio` never parses into live capture with system audio.
pub proof fn lemma_system_audio_only_when_asked(args: Seq<Seq<char>>)
    requires
        forall|k: int| 1 <= k < args.len() ==> args[k] != "--system-audio"@,
    ensures
        !(parse_outcome(args) matches Ok(ModeView::LiveCapture { system_audio, .. }) && system_audio),
{
    lemma_absent_option_kept(args, 1, initial_flags());
}

/// `--system-audio` turns system audio on, whatever follows it.
pub proof fn lemma_system_audio_turns_on(program: Seq<char>, rest: Seq<Seq<char>>)
    ensures
        parse_outcome(seq![program, "--system-audio"@] + rest) matches Ok(
            ModeView::LiveCapture { system_audio, .. },
        ) ==> system_audio,
{
    lemma_option_names_differ();
    let args = seq![program, "--system-audio"@] + rest;
    assert(args[1] == "--system-audio"@);
    let f = Flags { system_audio: true, ..initial_flags() };
    assert(scan_flags(args, 1, initial_flags()) == scan_flags(args, 2, f));
    lemma_absent_option_kept(args, 2, f);
}

/// `--live`, whatever follows it, asks for live capture: the command line
/// never parses into file transcription.
pub proof fn lemma_live_turns_on(program: Seq<char>, rest: Seq<Seq<char>>)
    ensures
        !(parse_outcome(seq![program, "--live"@] + rest) matches Ok(ModeView::FileTranscription { .. })),
{
    lemma_option_names_differ();
    let args = seq![program, "--live"@] + rest;
    assert(args[1] == "--live"@);
    let f = Flags { live: true, ..initial_flags() };
    assert(scan_flags(args, 1, initial_flags()) == scan_flags(args, 2, f));
    lemma_absent_option_kept(args, 2, f);
}

/// The argument after `--output-file` is the output file, unless a later
/// `--output-file` replaces it; live capture then has its output file.
pub proof fn lemma_output_file_value(program: Seq<char>, value: Seq<char>, rest: Seq<Seq<char>>)
    requires
        forall|k: int| 0 <= k < rest.len() ==> rest[k] != "--output-file"@,
    ensures
        parse_outcome(seq![program, "--output-file"@, value] + rest) != Err::<ModeView, ArgsError>(
            ArgsError::MissingOutputFile,
        ),
        parse_outcome(seq![program, "--output-file"@, value] + rest) matches Ok(
            ModeView::LiveCapture { output_file, .. },
        ) ==> output_file == value,
{
    lemma_option_names_differ();
    let args = seq![program, "--output-file"@, value] + rest;
    assert(args[1] == "--output-file"@ && args[2] == value);
    let f = Flags { output_file: Some(value), ..initial_flags() };
    assert(scan_flags(args, 1, initial_flags()) == scan_flags(args, 3, f));
    assert forall|k: int| 3 <= k < args.len() implies args[k] != "--output-file"@ by {
        assert(args[k] == rest[k - 3]);
    }
    lemma_absent_option_kept(args, 3, f);
}

/// The argument after `--input-video` is the video, unless a later
/// `--input-video` replaces it.
pub proof fn lemma_input_video_value(program: Seq<char>, value: Seq<char>, rest: Seq<Seq<char>>)
    requires
        forall|k: int| 0 <= k < rest.len() ==> rest[k] != "--input-video"@,
    ensures
        parse_outcome(seq![program, "--input-video"@, value] + rest) != Err::<ModeView, ArgsError>(
            ArgsError::MissingInputVideo,
        ),
        parse_outcome(seq![program, "--input-video"@, value] + rest) matches Ok(
            ModeView::FileTranscription { input_video, .. },
        ) ==> input_video == value,
{
    lemma_option_names_differ();
    let args = seq![program, "--input-video"@, value] + rest;
    assert(args[1] == "--input-video"@ && args[2] == value);
    let f = Flags { input_video: Some(value), ..initial_flags() };
    assert(scan_flags(args, 1, initial_flags()) == scan_flags(args, 3, f));
    assert forall|k: int| 3 <= k < args.len() implies args[k] != "--input-video"@ by {
        assert(args[k] == rest[k - 3]);
    }
    lemma_absent_option_kept(args, 3, f);
}

/// The argument after `--output-dir` is the output directory, unless a
/// later `--output-dir` replaces it.
pub proof fn lemma_output_dir_value(program: Seq<char>, value: Seq<char>, rest: Seq<Seq<char>>)
    requires
        forall|k: int| 0 <= k < rest.len() ==> rest[k] != "--output-dir"@,
    ensures
        parse_outcome(seq![program, "--output-dir"@, value] + rest) != Err::<ModeView, ArgsError>(
            ArgsError::MissingOutputDir,
        ),
        parse_outcome(seq![program, "--output-dir"@, value] + rest) matches Ok(
            ModeView::FileTranscription { output_dir, .. },
        ) ==> output_dir == value,
{
    lemma_option_names_differ();
    let args = seq![program, "--output-dir"@, value] + rest;
    assert(args[1] == "--output-dir"@ && args[2] == value);
    let f = Flags { output_dir: Some(value), ..initial_flags() };
    assert(scan_flags(args, 1, initial_flags()) == scan_flags(args, 3, f));
    assert forall|k: int| 3 <= k < args.len() implies args[k] != "--output-dir"@ by {
        assert(args[k] == rest[k - 3]);
    }
    lemma_absent_option_kept(args, 3, f);
}

/// The argument after `--audio-device` names the input device of live
/// capture, unless a later `--audio-device` replaces it.
pub proof fn lemma_audio_device_value(program: Seq<char>, value: Seq<char>, rest: Seq<Seq<char>>)
    requires
        forall|k: int| 0 <= k < rest.len() ==> rest[k] != "--audio-device"@,
    ensures
        parse_outcome(seq![program, "--audio-device"@, value] + rest) matches Ok(
            ModeView::LiveCapture { audio_device, .. },
        ) ==> audio_device == Some(value),
{
    lemma_option_names_differ();
    let args = seq![program, "--audio-device"@, value] + rest;
    assert(args[1] == "--audio-device"@ && args[2] == value);
    let f = Flags { audio_device: Some(value), ..initial_flags() };
    assert(scan_flags(args, 1, initial_flags()) == scan_flags(args, 3, f));
    assert forall|k: int| 3 <= k < args.len() implies args[k] != "--audio-device"@ by {
        assert(args[k] == rest[k - 3]);
    }
    lemma_absent_option_kept(args, 3, f);
}

/// The argument after `--language` is the language, in either mode, unless
/// a later `--language` replaces it.
pub proof fn lemma_language_value(program: Seq<char>, value: Seq<char>, rest: Seq<Seq<char>>)
    requires
        forall|k: int| 0 <= k < rest.len() ==> rest[k] != "--language"@,
    ensures
        match parse_outcome(seq![program, "--language"@, value] + rest) {
            Ok(ModeView::FileTranscription { language, .. }) => language == value,
            Ok(ModeView::LiveCapture { language, .. }) => language == value,
            Err(_) => true,
        },
{
    lemma_option_names_differ();
    let args = seq![program, "--language"@, value] + rest;
    assert(args[1] == "--language"@ && args[2] == value);
    let f = Flags { language: value, ..initial_flags() };
    assert(scan_flags(args, 1, initial_flags()) == scan_flags(args, 3, f));
    assert forall|k: int| 3 <= k < args.len() implies args[k] != "--language"@ by {
        assert(args[k] == rest[k - 3]);
    }
    lemma_absent_option_kept(args, 3, f);
}

/// Without `--audio-device` live capture uses the default input device
/// (no device named).
pub proof fn lemma_default_audio_device(args: Seq<Seq<char>>)
    requires
        forall|k: int| 1 <= k < args.len() ==> args[k] != "--audio-device"@,
    ensures
        parse_outcome(args) matches Ok(ModeView::LiveCapture { audio_device, .. }) ==> audio_device
            is None,
{
    lemma_absent_option_kept(args, 1, initial_flags());
}

/// File transcription needs both a video and an output directory: without
/// `--input-video` it is refused for the missing video, and without
/// `--output-dir` it never succeeds.
pub proof fn lemma_file_mode_needs_input_and_output(args: Seq<Seq<char>>)
    ensures
        (forall|k: int| 1 <= k < args.len() ==> args[k] != "--input-video"@ && args[k] != "--live"@)
            ==> parse_outcome(args) == Err::<ModeView, ArgsError>(ArgsError::MissingInputVideo),
        (forall|k: int| 1 <= k < args.len() ==> args[k] != "--output-dir"@) ==> !(parse_outcome(
            args,
        ) matches Ok(ModeView::FileTranscription { .. })),
{
    lemma_absent_option_kept(args, 1, initial_flags());
}

impl ArgsError {
    /// The text shown to the user.
    pub fn message(&self) -> (r: String)
        ensures
            r@ == match self {
                ArgsError::MissingOutputFile => "--output-file is required with --live"@,
                ArgsError::MissingInputVideo => "--input-video is required"@,
                ArgsError::MissingOutputDir => "--output-dir is required"@,
            },
    {
        match self {
            ArgsError::MissingOutputFile => String::from_str("--output-file is required with --live"),
            ArgsError::MissingInputVideo => String::from_str("--input-video is required"),
            ArgsError::MissingOutputDir => String::from_str("--output-dir is required"),
        }
    }
}

fn is_flag(arg: &String, flag: &str) -> (r: bool)
    ensures
        r == (arg@ == flag@),
{
    *arg == String::from_str(flag)
}

fn clone_opt(s: &Option<String>) -> (r: Option<String>)
    ensures
        opt_view(r) == opt_view(*s),
{
    match s {
        Some(v) => Some(v.clone()),
        None => None,
    }
}

/// Reads the command line (`args[0]` is the program's name) into the mode it
/// asks for, exactly as `parse_outcome` says. Whether the input video exists
/// is left to the caller.
pub fn parse_args(args: &Vec<String>) -> (r: Result<AppMode, ArgsError>)
    ensures
        outcome_view(r) == parse_outcome(args_view(args@)),
{
    let ghost av = args_view(args@);
    let n = args.len();
    let mut input_video: Option<String> = None;
    let mut output_dir: Option<String> = None;
    let mut output_file: Option<String> = None;
    let mut audio_device: Option<String> = None;
    let mut language: String = String::from_str("pt");
    let mut live = false;
    let mut system_audio = false;

    let mut i: usize = 1;
    while i < n
        invariant
            n == args@.len(),
            av == args_view(args@),
            1 <= i,
            scan_flags(av, i as int, Flags {
                input_video: opt_view(input_video),
                output_dir: opt_view(output_dir),
                output_file: opt_view(output_file),
                audio_device: opt_view(audio_device),
                language: language@,
                live,
                system_audio,
            }) == scan_flags(av, 1, initial_flags()),
        decreases n - i,
    {
        let ghost i0 = i as int;
        let ghost cur = Flags {
            input_video: opt_view(input_video),
            output_dir: opt_view(output_dir),
            output_file: opt_view(output_file),
            audio_device: opt_view(audio_device),
            language: language@,
            live,
            system_audio,
        };
        let arg = &args[i];
        proof {
            assert(av[i as int] == arg@);
        }
        let value: Option<String> = if i + 1 < n {
            proof {
                assert(av[i + 1] == args@[i + 1]@);
            }
            Some(args[i + 1].clone())
        } else {
            None
        };
        assert(opt_view(value) == value_after(av, i as int));
        let next: usize = if i + 1 < n { i + 2 } else { n };
        if is_flag(arg, "--live") {
            live = true;
            i = i + 1;
        } else if is_flag(arg, "--system-audio") {
            system_audio = true;
            i = i + 1;
        } else if is_flag(arg, "--input-video") {
            input_video = value;
            i = next;
        } else if is_flag(arg, "--output-dir") {
            output_dir = value;
            i = next;
        } else if is_flag(arg, "--output-file") {
            output_file = value;
            i = next;
        } else if is_flag(arg, "--audio-device") {
            audio_device = value;
            i = next;
        } else if is_flag(arg, "--language") {
            if let Some(l) = value {
                language = l;
            }
            i = next;
        } else {
            i = i + 1;
        }
        proof {
            let now = Flags {
                input_video: opt_view(input_video),
                output_dir: opt_view(output_dir),
                output_file: opt_view(output_file),
                audio_device: opt_view(audio_device),
                language: language@,
                live,
                system_audio,
            };
            assert(scan_flags(av, i as int, now) == scan_flags(av, i0 + 2, now) || i == i0 + 1);
            assert(scan_flags(av, i0, cur) == scan_flags(av, i as int, now));
        }
    }
    let ghost fin = Flags {
        input_video: opt_view(input_video),
        output_dir: opt_view(output_dir),
        output_file: opt_view(output_file),
        audio_device: opt_view(audio_device),
        language: language@,
        live,
        system_audio,
    };
    assert(scan_flags(av, i as int, fin) == fin);
    if live {
        match output_file {
            Some(output_file) => Ok(AppMode::LiveCapture { output_file, audio_device, language, system_audio }),
            None => Err(ArgsError::MissingOutputFile),
        }
    } else {
        match input_video {
            None => Err(ArgsError::MissingInputVideo),
            Some(input_video) => match output_dir {
                None => Err(ArgsError::MissingOutputDir),
                Some(output_dir) => Ok(AppMode::FileTranscription { input_video, output_dir, language }),
            },
        }
    }
}

} // verus!
