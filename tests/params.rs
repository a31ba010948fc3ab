use lcvr_macros::params::{ParameterizedString, ParseError, RenderError};

fn render(input: &str, args: &[&str]) -> Result<String, RenderError> {
    let template = ParameterizedString::new(input).unwrap();
    let args: Vec<String> = args.iter().map(|a| a.to_string()).collect();
    template.to_string(&args)
}

#[test]
fn plain_text_round_trips() {
    for s in ["", "hello world", "no braces } here", "ünïcödé ✓ text"] {
        let template = ParameterizedString::new(s).unwrap();
        assert_eq!(template.parameters(), 0);
        assert_eq!(template.to_string(&Vec::new()).unwrap(), s);
    }
}

#[test]
fn gap_in_indices_is_reported() {
    assert_eq!(
        ParameterizedString::new("{0}{2}").unwrap_err(),
        ParseError::MissingParameter(1)
    );
}

#[test]
fn contiguous_indices_parse() {
    let template = ParameterizedString::new("{0}{1}").unwrap();
    assert_eq!(template.parameters(), 2);
    assert_eq!(render("{0}{1}", &["a", "b"]).unwrap(), "ab");
}

#[test]
fn duplicate_index_counts_once() {
    let template = ParameterizedString::new("{0}-{0}").unwrap();
    assert_eq!(template.parameters(), 1);
    assert_eq!(render("{0}-{0}", &["x"]).unwrap(), "x-x");
}

#[test]
fn unmatched_brace_fails() {
    assert_eq!(
        ParameterizedString::new("foo {1").unwrap_err(),
        ParseError::UnmatchedBrace
    );
}

#[test]
fn brace_before_closing_fails() {
    assert_eq!(
        ParameterizedString::new("{a{0}").unwrap_err(),
        ParseError::UnmatchedBrace
    );
}

#[test]
fn non_integer_braces_stay_literal() {
    let template = ParameterizedString::new("{abc}").unwrap();
    assert_eq!(template.parameters(), 0);
    assert_eq!(template.to_string(&Vec::new()).unwrap(), "{abc}");
}

#[test]
fn oversized_index_stays_literal() {
    let text = "{99999999999999999999999999}";
    let template = ParameterizedString::new(text).unwrap();
    assert_eq!(template.parameters(), 0);
    assert_eq!(template.to_string(&Vec::new()).unwrap(), text);
}

#[test]
fn plus_sign_index_is_a_placeholder() {
    assert_eq!(render("[{+0}]", &["y"]).unwrap(), "[y]");
}

#[test]
fn count_mismatch_fails() {
    let template = ParameterizedString::new("{0}").unwrap();
    assert_eq!(
        template.to_string(&Vec::new()).unwrap_err(),
        RenderError::ParameterCountMismatch { expected: 1, actual: 0 }
    );
}

#[test]
fn missing_lowest_index_is_zero() {
    assert_eq!(
        ParameterizedString::new("only {5}").unwrap_err(),
        ParseError::MissingParameter(0)
    );
}

#[test]
fn substitutions_follow_indices_not_order() {
    assert_eq!(
        render("a {1} b {0} c {1} é", &["zero", "one"]).unwrap(),
        "a one b zero c one é"
    );
}

#[test]
fn parse_error_messages() {
    assert_eq!(ParseError::UnmatchedBrace.message(), "Unmatched '{' found.");
    assert_eq!(ParseError::MissingParameter(1).message(), "Missing parameter: {1}");
    assert_eq!(ParseError::MissingParameter(0).message(), "Missing parameter: {0}");
    assert_eq!(
        ParseError::MissingParameter(usize::MAX).message(),
        format!("Missing parameter: {{{}}}", usize::MAX)
    );
}

#[test]
fn render_error_messages_are_pluralised() {
    assert_eq!(
        RenderError::ParameterCountMismatch { expected: 1, actual: 0 }.message(),
        "Expected 1 parameter, got 0 parameters"
    );
    assert_eq!(
        RenderError::ParameterCountMismatch { expected: 12, actual: 1 }.message(),
        "Expected 12 parameters, got 1 parameter"
    );
    assert_eq!(
        RenderError::ParameterCountMismatch { expected: 100, actual: 309 }.message(),
        "Expected 100 parameters, got 309 parameters"
    );
}
