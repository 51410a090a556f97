use prover_input::error::AssembleError;
use prover_input::extract::{is_skipped, parse_toml_line, read_prover_toml, strip_quotes, value_in_line};

fn chars(s: &str) -> Vec<char> {
    s.chars().collect()
}

fn text(s: &[char]) -> String {
    s.iter().collect()
}

fn pair(secret: &str, nullifier: &str) -> Result<(String, String), AssembleError> {
    Ok((secret.to_string(), nullifier.to_string()))
}

#[test]
fn line_carries_quoted_value() {
    assert_eq!(parse_toml_line("secret = \"abc\"", "secret"), Some("abc".to_string()));
    assert_eq!(parse_toml_line("nullifier = \"def\"", "nullifier"), Some("def".to_string()));
}

#[test]
fn line_carries_bare_value() {
    assert_eq!(parse_toml_line("secret = abc", "secret"), Some("abc".to_string()));
    assert_eq!(parse_toml_line("secret=abc", "secret"), Some("abc".to_string()));
}

#[test]
fn line_for_another_key_carries_nothing() {
    assert_eq!(parse_toml_line("nullifier = \"def\"", "secret"), None);
    assert_eq!(parse_toml_line("root = \"0x01\"", "secret"), None);
    assert_eq!(parse_toml_line("", "secret"), None);
}

#[test]
fn line_without_equals_sign_carries_nothing() {
    assert_eq!(parse_toml_line("secret", "secret"), None);
    assert_eq!(parse_toml_line("secret \"abc\"", "secret"), None);
}

#[test]
fn value_is_split_at_the_first_equals_sign() {
    assert_eq!(parse_toml_line("secret = a=b", "secret"), Some("a=b".to_string()));
    assert_eq!(parse_toml_line("secret == x", "secret"), Some("= x".to_string()));
}

#[test]
fn value_may_be_empty() {
    assert_eq!(parse_toml_line("secret =", "secret"), Some(String::new()));
    assert_eq!(parse_toml_line("secret = \"\"", "secret"), Some(String::new()));
    assert_eq!(parse_toml_line("secret = \"", "secret"), Some(String::new()));
}

#[test]
fn whitespace_around_the_value_is_removed() {
    assert_eq!(parse_toml_line("secret =   \t\"abc\" \t ", "secret"), Some("abc".to_string()));
    assert_eq!(parse_toml_line("secret =\u{a0}abc\u{3000}", "secret"), Some("abc".to_string()));
}

#[test]
fn whitespace_inside_the_quotes_is_kept() {
    assert_eq!(parse_toml_line("secret = \" abc \"", "secret"), Some(" abc ".to_string()));
}

#[test]
fn key_is_matched_after_trimming() {
    assert_eq!(parse_toml_line("   secret = \"abc\"", "secret"), Some("abc".to_string()));
    assert_eq!(parse_toml_line("\tsecret = \"abc\"  ", "secret"), Some("abc".to_string()));
}

#[test]
fn key_is_matched_as_a_prefix() {
    assert_eq!(parse_toml_line("secret_extra = \"zzz\"", "secret"), Some("zzz".to_string()));
    assert_eq!(parse_toml_line("nullifier_hash = \"0x06\"", "nullifier"), Some("0x06".to_string()));
    assert_eq!(parse_toml_line("secre = \"zzz\"", "secret"), None);
}

#[test]
fn one_quote_is_removed_at_each_end() {
    assert_eq!(parse_toml_line("secret = \"\"abc\"\"", "secret"), Some("\"abc\"".to_string()));
    assert_eq!(parse_toml_line("secret = \"abc", "secret"), Some("abc".to_string()));
    assert_eq!(parse_toml_line("secret = abc\"", "secret"), Some("abc".to_string()));
    assert_eq!(parse_toml_line("secret = a\"b", "secret"), Some("a\"b".to_string()));
}

#[test]
fn strip_quotes_removes_one_layer() {
    assert_eq!(text(strip_quotes(&chars("\"abc\""))), "abc");
    assert_eq!(text(strip_quotes(&chars("abc"))), "abc");
    assert_eq!(text(strip_quotes(&chars("\""))), "");
    assert_eq!(text(strip_quotes(&chars("\"\""))), "");
    assert_eq!(text(strip_quotes(&chars("\"\"\""))), "\"");
    assert_eq!(text(strip_quotes(&chars(""))), "");
    assert_eq!(text(strip_quotes(&chars("\"a\"b\""))), "a\"b");
}

#[test]
fn blank_lines_and_comments_are_skipped() {
    assert!(is_skipped(&chars("")));
    assert!(is_skipped(&chars("   \t")));
    assert!(is_skipped(&chars("# comment")));
    assert!(is_skipped(&chars("   # secret = \"abc\"")));
    assert!(is_skipped(&chars("#")));
    assert!(!is_skipped(&chars("secret = \"abc\"")));
    assert!(!is_skipped(&chars("x # not a comment line")));
}

#[test]
fn value_in_line_is_a_part_of_the_line() {
    let line = chars("  secret = \"abc\" ");
    let key = chars("secret");
    assert_eq!(value_in_line(&line, &key), Some(&['a', 'b', 'c'][..]));
    assert_eq!(value_in_line(&line, &chars("nullifier")), None);
}

#[test]
fn extractor_correctness() {
    assert_eq!(read_prover_toml("secret = \"abc\"\nnullifier = \"def\"\n"), pair("abc", "def"));
    assert_eq!(read_prover_toml("nullifier = \"def\"\nsecret = \"abc\"\n"), pair("abc", "def"));
    assert_eq!(
        read_prover_toml("# comment\n\nsecret = \"abc\"\n\n# comment\n   \nnullifier = \"def\"\n\n"),
        pair("abc", "def")
    );
    assert_eq!(
        read_prover_toml("\n# comment\nnullifier = \"def\"\n# comment\n\nsecret = \"abc\""),
        pair("abc", "def")
    );
}

#[test]
fn extractor_failure() {
    assert_eq!(read_prover_toml("secret = \"abc\"\n"), Err(AssembleError::MissingField));
}

#[test]
fn extractor_fails_without_secret() {
    assert_eq!(read_prover_toml("nullifier = \"def\"\n"), Err(AssembleError::MissingField));
}

#[test]
fn extractor_fails_on_empty_document() {
    assert_eq!(read_prover_toml(""), Err(AssembleError::MissingField));
    assert_eq!(read_prover_toml("# secret = \"abc\"\n# nullifier = \"def\"\n"), Err(AssembleError::MissingField));
}

#[test]
fn extractor_fails_where_a_key_has_no_equals_sign() {
    assert_eq!(read_prover_toml("secret \"abc\"\nnullifier = \"def\"\n"), Err(AssembleError::MissingField));
}

#[test]
fn first_occurrence_of_a_key_wins() {
    assert_eq!(
        read_prover_toml("secret = \"first\"\nsecret = \"second\"\nnullifier = \"def\"\n"),
        pair("first", "def")
    );
    assert_eq!(
        read_prover_toml("nullifier = \"n1\"\nnullifier = \"n2\"\nsecret = \"abc\"\nsecret = \"zzz\"\n"),
        pair("abc", "n1")
    );
}

#[test]
fn lines_after_both_keys_are_not_looked_at() {
    assert_eq!(
        read_prover_toml("secret = \"abc\"\nnullifier = \"def\"\nsecret = \"late\"\nnullifier = \"late\"\n"),
        pair("abc", "def")
    );
}

#[test]
fn other_fields_are_passed_over() {
    assert_eq!(
        read_prover_toml("root = \"0x01\"\nsecret = \"0x07\"\nproof = [\n    1,\n]\nnullifier = \"0x08\"\n"),
        pair("0x07", "0x08")
    );
}

#[test]
fn longer_key_with_the_same_start_is_taken_for_the_key() {
    assert_eq!(
        read_prover_toml("nullifier_hash = \"0x06\"\nsecret = \"0x07\"\nnullifier = \"0x08\"\n"),
        pair("0x07", "0x06")
    );
}

#[test]
fn extractor_reads_windows_line_ends() {
    assert_eq!(read_prover_toml("secret = \"abc\"\r\nnullifier = \"def\"\r\n"), pair("abc", "def"));
}

#[test]
fn extractor_reads_indented_keys() {
    assert_eq!(read_prover_toml("  secret = \"abc\"\n\tnullifier = \"def\"\n"), pair("abc", "def"));
}
