use salad::args::{
    default_prefs, finish_args, process_arg, process_int_arg, ArgOutcome, ArgState,
};
use salad::phrase::Phrase;
use salad::problem::Problem;

fn run_args(tokens: &[&str]) -> Result<(salad::phrase::Prefs, Option<Vec<u8>>), Problem> {
    let mut prefs = default_prefs();
    let mut word_path: Option<Vec<u8>> = None;
    let mut state = ArgState::BeginArg;
    for token in tokens {
        let bytes = token.as_bytes().to_vec();
        match process_arg(&state, &bytes, &mut prefs, &mut word_path)? {
            ArgOutcome::Continue(next) => state = next,
            ArgOutcome::Help => panic!("help not expected here"),
        }
    }
    finish_args(&state)?;
    Ok((prefs, word_path))
}

#[test]
fn int_arg_accepts_decimal_values() {
    assert_eq!(process_int_arg(b"0"), Ok(0));
    assert_eq!(process_int_arg(b"7"), Ok(7));
    assert_eq!(process_int_arg(b"255"), Ok(255));
    assert_eq!(process_int_arg(b"+3"), Ok(3));
    assert_eq!(process_int_arg(b"007"), Ok(7));
}

#[test]
fn int_arg_rejects_malformed_values() {
    assert_eq!(process_int_arg(b""), Err(Problem::Usage));
    assert_eq!(process_int_arg(b"+"), Err(Problem::Usage));
    assert_eq!(process_int_arg(b"256"), Err(Problem::Usage));
    assert_eq!(process_int_arg(b"abc"), Err(Problem::Usage));
    assert_eq!(process_int_arg(b"12a"), Err(Problem::Usage));
    assert_eq!(process_int_arg(b"-1"), Err(Problem::Usage));
    assert_eq!(process_int_arg(b"999999999999"), Err(Problem::Usage));
}

#[test]
fn defaults_match_usage_text() {
    let p = default_prefs();
    assert_eq!(p.max_chars, 12);
    assert_eq!(p.min_chars, 5);
    assert_eq!(p.num_words, 6);
    assert!(matches!(p.phrase, Phrase::DynamicMnemonic));
}

#[test]
fn max_clamps_min_downwards() {
    let (p, _) = run_args(&["-max", "3"]).unwrap();
    assert_eq!(p.max_chars, 3);
    assert_eq!(p.min_chars, 3);
}

#[test]
fn min_clamps_max_upwards() {
    let (p, _) = run_args(&["-min", "200"]).unwrap();
    assert_eq!(p.min_chars, 200);
    assert_eq!(p.max_chars, 200);
}

#[test]
fn bounds_within_defaults_stay_put() {
    let (p, _) = run_args(&["-min", "6", "-max", "10", "-n", "4"]).unwrap();
    assert_eq!(p.min_chars, 6);
    assert_eq!(p.max_chars, 10);
    assert_eq!(p.num_words, 4);
}

#[test]
fn mode_options_select_phrase() {
    let (p, _) = run_args(&["-r"]).unwrap();
    assert!(matches!(p.phrase, Phrase::Random));
    let (p, _) = run_args(&["-r", "-m"]).unwrap();
    assert!(matches!(p.phrase, Phrase::DynamicMnemonic));
    let (p, _) = run_args(&["-M", "floyd"]).unwrap();
    match p.phrase {
        Phrase::FixedMnemonic(m) => assert_eq!(m, b"floyd".to_vec()),
        _ => panic!("expected a fixed mnemonic"),
    }
}

#[test]
fn word_file_option_records_path() {
    let (_, path) = run_args(&["-w", "/tmp/words"]).unwrap();
    assert_eq!(path, Some(b"/tmp/words".to_vec()));
}

#[test]
fn help_option_stops_processing() {
    let mut prefs = default_prefs();
    let mut word_path: Option<Vec<u8>> = None;
    let r = process_arg(&ArgState::BeginArg, &b"-h".to_vec(), &mut prefs, &mut word_path);
    assert!(matches!(r, Ok(ArgOutcome::Help)));
    let r = process_arg(&ArgState::BeginArg, &b"--help".to_vec(), &mut prefs, &mut word_path);
    assert!(matches!(r, Ok(ArgOutcome::Help)));
}

#[test]
fn unknown_option_is_usage_error() {
    assert!(matches!(run_args(&["-z"]), Err(Problem::Usage)));
    assert!(matches!(run_args(&["max"]), Err(Problem::Usage)));
}

#[test]
fn dangling_value_option_is_usage_error() {
    assert!(matches!(run_args(&["-max"]), Err(Problem::Usage)));
    assert!(matches!(run_args(&["-M"]), Err(Problem::Usage)));
    assert!(matches!(run_args(&["-w"]), Err(Problem::Usage)));
}

#[test]
fn bad_int_value_is_usage_error() {
    assert!(matches!(run_args(&["-n", "many"]), Err(Problem::Usage)));
}

#[test]
fn problem_messages() {
    assert_eq!(
        Problem::NoMatchingWords.message(),
        "No Matching words found."
    );
    assert_eq!(
        Problem::UnexpectedEndOfWordFile.message(),
        "Unexpected end of word file."
    );
    assert_eq!(Problem::WordFileTooLarge.message(), "Word file is too large.");
    assert_eq!(Problem::TooFewRandomBytes.message(), "Too few random bytes read.");
    assert!(Problem::Usage.message().starts_with("USAGE: salad"));
}
