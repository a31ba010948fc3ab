use lcvr_macros::creation::{check_macro_content, is_valid_name, CreateError};
use lcvr_macros::invocation::{
    command_name, execute_macro_with_database, execute_macro_with_message, resolve_source,
    Execution, MacroError, SourceMessage,
};
use lcvr_macros::listing::{next_page, page_bounds, page_count, previous_page};
use lcvr_macros::models::{new_attachments, Attachment, Macro};
use lcvr_macros::params::{ParseError, RenderError};

fn strings(v: &[&str]) -> Vec<String> {
    v.iter().map(|s| s.to_string()).collect()
}

fn stored(content: &str) -> Macro {
    Macro {
        id: 7,
        name: "greet".to_string(),
        description: "says hi".to_string(),
        channel_id: "1".to_string(),
        message_id: "2".to_string(),
        content: content.to_string(),
    }
}

fn links(v: &[&str]) -> Vec<Attachment> {
    v.iter()
        .enumerate()
        .map(|(i, l)| Attachment { id: i as i32, macro_id: 7, link: l.to_string() })
        .collect()
}

#[test]
fn command_name_strips_sigil() {
    assert_eq!(command_name(".greet everyone"), Some("greet".to_string()));
    assert_eq!(command_name(".greet"), Some("greet".to_string()));
    assert_eq!(command_name(".a\tb"), Some("a".to_string()));
    assert_eq!(command_name("greet"), None);
    assert_eq!(command_name(""), None);
}

#[test]
fn live_split_attaches_extras_as_files() {
    let source = SourceMessage {
        content: "see {0}".to_string(),
        attachments: strings(&["A", "B", "C"]),
    };
    assert_eq!(
        execute_macro_with_message(&source),
        Ok(Execution::Send { content: "see A".to_string(), files: strings(&["B", "C"]) })
    );
}

#[test]
fn live_with_too_few_attachments_aborts() {
    let source = SourceMessage { content: "{0} {1}".to_string(), attachments: strings(&["A"]) };
    assert_eq!(
        execute_macro_with_message(&source),
        Ok(Execution::Abort { expected: 2, actual: 1 })
    );
}

#[test]
fn live_parse_error_is_reported() {
    let source = SourceMessage { content: "{0}{2}".to_string(), attachments: strings(&["A", "B"]) };
    assert_eq!(
        execute_macro_with_message(&source),
        Err(MacroError::Parse(ParseError::MissingParameter(1)))
    );
}

#[test]
fn stored_split_appends_extras_as_links() {
    assert_eq!(
        execute_macro_with_database(&stored("see {0}"), &links(&["A", "B", "C"])),
        Ok(Execution::Send { content: "see A\n\nB\nC".to_string(), files: Vec::new() })
    );
}

#[test]
fn stored_without_extras_is_plain() {
    assert_eq!(
        execute_macro_with_database(&stored("hi {0}"), &links(&["A"])),
        Ok(Execution::Send { content: "hi A".to_string(), files: Vec::new() })
    );
}

#[test]
fn stored_with_too_few_links_fails() {
    assert_eq!(
        execute_macro_with_database(&stored("{0}{1}"), &links(&["A"])),
        Err(MacroError::Render(RenderError::ParameterCountMismatch { expected: 2, actual: 1 }))
    );
}

#[test]
fn failed_fetch_falls_back_to_store() {
    let r = resolve_source(None, &stored("x {0}"), &links(&["L1", "L2"]));
    assert_eq!(
        r,
        Ok(Execution::Send { content: "x L1\n\nL2".to_string(), files: Vec::new() })
    );
}

#[test]
fn live_source_wins_over_store() {
    let live = SourceMessage { content: "new {0}".to_string(), attachments: strings(&["N"]) };
    let r = resolve_source(Some(live), &stored("old {0}"), &links(&["O"]));
    assert_eq!(r, Ok(Execution::Send { content: "new N".to_string(), files: Vec::new() }));
}

#[test]
fn upsert_rows_hold_only_the_new_links() {
    let first = new_attachments(3, &strings(&["a", "b", "c"]));
    assert_eq!(first.len(), 3);
    let second = new_attachments(3, &strings(&["z"]));
    assert_eq!(second.len(), 1);
    assert_eq!(second[0].link, "z");
    assert_eq!(second[0].macro_id, 3);
}

#[test]
fn macro_names_are_checked() {
    assert!(is_valid_name("my-macro_x"));
    assert!(is_valid_name(&"a".repeat(32)));
    assert!(!is_valid_name(&"a".repeat(33)));
    assert!(!is_valid_name(""));
    assert!(!is_valid_name("Upper"));
    assert!(!is_valid_name("digit1"));
}

#[test]
fn content_checks_on_creation() {
    assert_eq!(check_macro_content("{0} and {1}", &vec![1, 2, 3]), Ok(2));
    assert_eq!(
        check_macro_content("{0} and {1}", &vec![1]),
        Err(CreateError::TooFewAttachments { parameters: 2, attachments: 1 })
    );
    assert_eq!(
        check_macro_content("{0}", &vec![20_000_000, 5, 10_485_761]),
        Err(CreateError::AttachmentTooLarge { position: 2 })
    );
    assert_eq!(check_macro_content("{0}", &vec![20_000_000, 10_485_760]), Ok(1));
    assert_eq!(
        check_macro_content("oops {", &vec![]),
        Err(CreateError::Parse(ParseError::UnmatchedBrace))
    );
}

#[test]
fn pages_of_the_list() {
    assert_eq!(page_count(0), 0);
    assert_eq!(page_count(25), 1);
    assert_eq!(page_count(26), 2);
    assert_eq!(page_bounds(30, 0), Some((0, 25)));
    assert_eq!(page_bounds(30, 1), Some((25, 30)));
    assert_eq!(page_bounds(30, 2), None);
    assert_eq!(page_bounds(0, 0), None);
    assert_eq!(next_page(0, 2), 1);
    assert_eq!(next_page(1, 2), 0);
    assert_eq!(previous_page(0, 3), 2);
    assert_eq!(previous_page(2, 3), 1);
    assert_eq!(previous_page(0, 0), 0);
}

#[test]
fn command_name_stops_at_unicode_whitespace() {
    assert_eq!(command_name(".a\u{3000}b"), Some("a".to_string()));
    assert_eq!(command_name(".hello\u{a0}there"), Some("hello".to_string()));
    assert_eq!(command_name(".hi\nthere"), Some("hi".to_string()));
    assert_eq!(command_name("."), Some(String::new()));
}

#[test]
fn command_separators_are_exactly_whitespace() {
    for code in 0u32..=0x3100 {
        let Some(c) = char::from_u32(code) else { continue };
        let expected = if c.is_whitespace() { "a".to_string() } else { format!("a{c}b") };
        assert_eq!(command_name(&format!(".a{c}b")), Some(expected), "code point {code:#x}");
    }
}
