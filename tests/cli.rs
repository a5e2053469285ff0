use ftoi::{parse_args, Mode, UsageError};

fn argv(words: &[&str]) -> Vec<String> {
    words.iter().map(|w| w.to_string()).collect()
}

#[test]
fn plain_encode() {
    let c = parse_args(&argv(&["ftoi", "in.bin", "out.png"])).unwrap();
    assert_eq!(c.mode, Mode::Encode);
    assert!(!c.compress);
    assert_eq!(c.input_path, "in.bin");
    assert_eq!(c.output_path, Some("out.png".to_string()));
}

#[test]
fn flags_anywhere_and_joined() {
    let c = parse_args(&argv(&["ftoi", "in.png", "-dc", "out.bin"])).unwrap();
    assert_eq!(c.mode, Mode::Decode);
    assert!(c.compress);
    assert_eq!(c.input_path, "in.png");
    assert_eq!(c.output_path, Some("out.bin".to_string()));

    let c = parse_args(&argv(&["ftoi", "-e", "-c", "in.bin"])).unwrap();
    assert_eq!(c.mode, Mode::Encode);
    assert!(c.compress);
    assert_eq!(c.output_path, None);
}

#[test]
fn letter_after_dash_only() {
    // "c" and "d" in positional arguments are not options, nor is a leading dash alone
    let c = parse_args(&argv(&["ftoi", "cd", "-", "out"])).unwrap();
    assert_eq!(c.mode, Mode::Encode);
    assert!(!c.compress);
    assert_eq!(c.input_path, "cd");
    assert_eq!(c.output_path, Some("out".to_string()));
}

#[test]
fn missing_input_is_a_usage_error() {
    assert_eq!(parse_args(&argv(&["ftoi"])).err(), Some(UsageError::MissingInput));
    assert_eq!(parse_args(&argv(&["ftoi", "-d", "-c"])).err(), Some(UsageError::MissingInput));
    assert_eq!(parse_args(&argv(&[])).err(), Some(UsageError::MissingInput));
}
