use transcribe::args::{parse_args, AppMode, ArgsError};

fn args(items: &[&str]) -> Vec<String> {
    items.iter().map(|s| s.to_string()).collect()
}

#[test]
fn file_mode_defaults_to_portuguese() {
    let r = parse_args(&args(&["transcribe", "--input-video", "v.mp4", "--output-dir", "out"]));
    match r {
        Ok(AppMode::FileTranscription { input_video, output_dir, language }) => {
            assert_eq!(input_video, "v.mp4");
            assert_eq!(output_dir, "out");
            assert_eq!(language, "pt");
        }
        _ => panic!("expected file mode"),
    }
}

#[test]
fn language_option_picks_language() {
    let r = parse_args(&args(&[
        "transcribe", "--language", "en", "--input-video", "v.mp4", "--output-dir", "out",
    ]));
    match r {
        Ok(AppMode::FileTranscription { language, .. }) => assert_eq!(language, "en"),
        _ => panic!("expected file mode"),
    }
}

#[test]
fn language_without_value_keeps_default() {
    let r = parse_args(&args(&["transcribe", "--live", "--output-file", "t.txt", "--language"]));
    match r {
        Ok(AppMode::LiveCapture { language, .. }) => assert_eq!(language, "pt"),
        _ => panic!("expected live mode"),
    }
}

#[test]
fn live_mode_with_all_options() {
    let r = parse_args(&args(&[
        "transcribe",
        "--live",
        "--system-audio",
        "--output-file",
        "t.txt",
        "--audio-device",
        "USB Mic",
        "--language",
        "es",
    ]));
    match r {
        Ok(AppMode::LiveCapture { output_file, audio_device, language, system_audio }) => {
            assert_eq!(output_file, "t.txt");
            assert_eq!(audio_device, Some("USB Mic".to_string()));
            assert_eq!(language, "es");
            assert!(system_audio);
        }
        _ => panic!("expected live mode"),
    }
}

#[test]
fn live_without_output_file_is_refused() {
    let r = parse_args(&args(&["transcribe", "--live"]));
    assert_eq!(r.err(), Some(ArgsError::MissingOutputFile));
    assert_eq!(ArgsError::MissingOutputFile.message(), "--output-file is required with --live");
}

#[test]
fn file_mode_needs_input_video_then_output_dir() {
    let r = parse_args(&args(&["transcribe"]));
    assert_eq!(r.err(), Some(ArgsError::MissingInputVideo));
    let r = parse_args(&args(&["transcribe", "--output-dir", "out"]));
    assert_eq!(r.err(), Some(ArgsError::MissingInputVideo));
    let r = parse_args(&args(&["transcribe", "--input-video", "v.mp4"]));
    assert_eq!(r.err(), Some(ArgsError::MissingOutputDir));
    assert_eq!(ArgsError::MissingInputVideo.message(), "--input-video is required");
    assert_eq!(ArgsError::MissingOutputDir.message(), "--output-dir is required");
}

#[test]
fn option_value_is_taken_whatever_it_is() {
    // The argument after --output-file is its value, even when it looks like an option.
    let r = parse_args(&args(&["transcribe", "--output-file", "--live"]));
    assert_eq!(r.err(), Some(ArgsError::MissingInputVideo));
}

#[test]
fn program_name_and_unknown_arguments_are_ignored() {
    let r = parse_args(&args(&[
        "--live", "--verbose", "--input-video", "a.mov", "extra", "--output-dir", "o",
    ]));
    match r {
        Ok(AppMode::FileTranscription { input_video, output_dir, .. }) => {
            assert_eq!(input_video, "a.mov");
            assert_eq!(output_dir, "o");
        }
        _ => panic!("expected file mode"),
    }
}

#[test]
fn last_value_wins() {
    let r = parse_args(&args(&[
        "transcribe", "--input-video", "a", "--input-video", "b", "--output-dir", "o",
    ]));
    match r {
        Ok(AppMode::FileTranscription { input_video, .. }) => assert_eq!(input_video, "b"),
        _ => panic!("expected file mode"),
    }
}

#[test]
fn trailing_option_without_value_is_unset() {
    let r = parse_args(&args(&["transcribe", "--output-dir", "o", "--input-video"]));
    assert_eq!(r.err(), Some(ArgsError::MissingInputVideo));
}
