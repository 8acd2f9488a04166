use waveform::cli::{help_text, parse_args, ParseOutcome};

fn args(list: &[&str]) -> Vec<String> {
    list.iter().map(|a| a.to_string()).collect()
}

#[test]
fn one_file_runs() {
    match parse_args(&args(&["song.wav"])) {
        Ok(ParseOutcome::Run(config)) => assert_eq!(config.path, "song.wav"),
        _ => panic!("expected a run"),
    }
}

#[test]
fn no_arguments_print_usage() {
    match parse_args(&args(&[])) {
        Ok(ParseOutcome::Exit(text)) => assert_eq!(text, help_text()),
        _ => panic!("expected usage"),
    }
}

#[test]
fn help_flags_print_usage() {
    for flag in ["-h", "--help"] {
        match parse_args(&args(&[flag, "--bogus"])) {
            Ok(ParseOutcome::Exit(text)) => assert!(text.starts_with("waveform\n\nCross-platform")),
            _ => panic!("expected usage"),
        }
    }
}

#[test]
fn unknown_flags_fail() {
    match parse_args(&args(&["--loud", "a.wav"])) {
        Err(message) => assert_eq!(message, "unknown flag: --loud"),
        _ => panic!("expected an error"),
    }
}

#[test]
fn two_files_fail() {
    match parse_args(&args(&["a.wav", "b.wav"])) {
        Err(message) => assert_eq!(message, "only one input file can be opened at a time"),
        _ => panic!("expected an error"),
    }
}

#[test]
fn help_text_lines() {
    let text = help_text();
    let lines: Vec<&str> = text.split('\n').collect();
    assert_eq!(lines.len(), 11);
    assert_eq!(lines[0], "waveform");
    assert_eq!(lines[5], "  waveform <file.wav>");
    assert!(lines[10].ends_with("and L toggles looping."));
}
