//! What one invocation of a macro comes to: which source it renders from, and
//! the message to send.

use crate::models::{links_of, Attachment, Macro};
use crate::params::{
    parameter_count, parse_fails_with, parses, rendered, views, ParameterizedString, ParseError,
    RenderError,
};
use vstd::prelude::*;

verus! {

/// The current state of a macro's source message, as fetched live.
#[derive(Debug, Clone, PartialEq)]
pub struct SourceMessage {
    pub content: String,
    /// The URLs of the message's attachments, in order.
    pub attachments: Vec<String>,
}

/// The message that an invocation sends, or why it sends none.
#[derive(Debug, Clone, PartialEq)]
pub enum Execution {
    /// Send `content`, with each of `files` attached to the message as a file.
    Send { content: String, files: Vec<String> },
    /// The source message no longer has the attachments its placeholders need:
    /// report this and leave the invoking message in place.
    Abort { expected: usize, actual: usize },
}

/// Why a macro could not be rendered.
#[derive(Debug, Clone, Copy, PartialEq, Eq, Structural)]
pub enum MacroError {
    Parse(ParseError),
    Render(RenderError),
}

/// `c` separates the command from what follows it: a character of the
/// Unicode White_Space property, the set that `char::is_whitespace` accepts.
pub open spec fn is_separator(c: char) -> bool {
    ||| '\t' <= c && c <= '\r'
    ||| c == ' '
    ||| c == '\u{85}'
    ||| c == '\u{a0}'
    ||| c == '\u{1680}'
    ||| '\u{2000}' <= c && c <= '\u{200a}'
    ||| c == '\u{2028}'
    ||| c == '\u{2029}'
    ||| c == '\u{202f}'
    ||| c == '\u{205f}'
    ||| c == '\u{3000}'
}

/// The characters of `s` from `from` up to the first separator.
pub open spec fn token_from(s: Seq<char>, from: int) -> Seq<char>
    decreases s.len() - from,
{
    if from < 0 || from >= s.len() || is_separator(s[from]) {
        Seq::empty()
    } else {
        seq![s[from]] + token_from(s, from + 1)
    }
}

/// The macro name that a message invokes: its first word without the leading `.`.
pub open spec fn command_of(s: Seq<char>) -> Option<Seq<char>> {
    if s.len() > 0 && s[0] == '.' {
        Some(token_from(s, 1))
    } else {
        None
    }
}

/// The stored links as lines after a blank line, one per link.
pub open spec fn link_lines(links: Seq<Seq<char>>) -> Seq<char>
    decreases links.len(),
{
    if links.len() == 0 {
        Seq::empty()
    } else {
        link_lines(links.drop_last()) + seq!['\n'] + links.last()
    }
}

/// `body`, followed by the extra links where there are any.
pub open spec fn with_links(body: Seq<char>, extras: Seq<Seq<char>>) -> Seq<char> {
    if extras.len() == 0 {
        body
    } else {
        body + seq!['\n'] + link_lines(extras)
    }
}

/// What rendering from the live source message gives: the first attachments
/// fill the placeholders and the others go along as files.
pub open spec fn live_outcome(
    content: Seq<char>,
    atts: Seq<String>,
    r: Result<Execution, MacroError>,
) -> bool {
    let n = parameter_count(content) as int;
    if !parses(content) {
        r matches Err(MacroError::Parse(err)) && parse_fails_with(content, err)
    } else if atts.len() < n {
        r == Ok::<Execution, MacroError>(
            (Execution::Abort { expected: n as usize, actual: atts.len() as usize }),
        )
    } else {
        r matches Ok(Execution::Send { content: t, files }) && t@ == rendered(
            content,
            views(atts.take(n)),
        ) && files@ == atts.skip(n)
    }
}

/// What rendering from the stored macro gives: the first links fill the
/// placeholders and the others are appended as text; nothing is attached.
pub open spec fn stored_outcome(
    content: Seq<char>,
    links: Seq<Seq<char>>,
    r: Result<Execution, MacroError>,
) -> bool {
    let n = parameter_count(content) as int;
    if !parses(content) {
        r matches Err(MacroError::Parse(err)) && parse_fails_with(content, err)
    } else if links.len() < n {
        r == Err::<Execution, MacroError>(
            MacroError::Render(
                (RenderError::ParameterCountMismatch {
                    expected: n as usize,
                    actual: links.len() as usize,
                }),
            ),
        )
    } else {
        r matches Ok(Execution::Send { content: t, files }) && t@ == with_links(
            rendered(content, links.take(n)),
            links.skip(n),
        ) && files@.len() == 0
    }
}

/// The name of the macro that `content` invokes, if it invokes one.
pub fn command_name(content: &str) -> (r: Option<String>)
    ensures
        match command_of(content@) {
            None => r is None,
            Some(name) => r matches Some(t) && t@ == name,
        },
{
    let s = crate::params::chars_of(content);
    if s.len() == 0 || s[0] != '.' {
        return None;
    }
    let mut name = String::new();
    let mut k: usize = 1;
    while k < s.len() && !is_separator_char(s[k])
        invariant
            1 <= k <= s@.len(),
            s@ == content@,
            name@ + token_from(s@, k as int) == token_from(s@, 1),
        decreases s@.len() - k,
    {
        let ghost before = name@;
        name.push(s[k]);
        assert(before + token_from(s@, k as int) =~= name@ + token_from(s@, k + 1));
        k = k + 1;
    }
    assert(name@ + token_from(s@, k as int) =~= name@);
    Some(name)
}

fn is_separator_char(c: char) -> (r: bool)
    ensures
        r == is_separator(c),
{
    ('\t' <= c && c <= '\r') || c == ' ' || c == '\u{85}' || c == '\u{a0}' || c == '\u{1680}'
        || ('\u{2000}' <= c && c <= '\u{200a}') || c == '\u{2028}' || c == '\u{2029}' || c
        == '\u{202f}' || c == '\u{205f}' || c == '\u{3000}'
}

/// The first `n` items of `v`, and the rest.
fn split_links(v: &Vec<String>, n: usize) -> (r: (Vec<String>, Vec<String>))
    requires
        n <= v@.len(),
    ensures
        r.0@ == v@.take(n as int),
        r.1@ == v@.skip(n as int),
{
    let mut head: Vec<String> = Vec::new();
    let mut tail: Vec<String> = Vec::new();
    let mut k: usize = 0;
    while k < v.len()
        invariant
            n <= v@.len(),
            k <= v@.len(),
            head@ == v@.take(if k < n { k as int } else { n as int }),
            tail@ == if k < n { Seq::empty() } else { v@.subrange(n as int, k as int) },
        decreases v@.len() - k,
    {
        if k < n {
            head.push(v[k].clone());
            assert(v@.take(k + 1) =~= v@.take(k as int).push(v@[k as int]));
        } else {
            tail.push(v[k].clone());
            assert(v@.subrange(n as int, k + 1) =~= v@.subrange(n as int, k as int).push(v@[k as int]));
        }
        k = k + 1;
    }
    assert(v@.subrange(n as int, v@.len() as int) =~= v@.skip(n as int));
    (head, tail)
}

/// Renders a macro from its live source message.
pub fn execute_macro_with_message(source: &SourceMessage) -> (r: Result<Execution, MacroError>)
    ensures
        live_outcome(source.content@, source.attachments@, r),
{
    let template = match ParameterizedString::new(source.content.as_str()) {
        Ok(t) => t,
        Err(why) => return Err(MacroError::Parse(why)),
    };
    let count = template.parameters();
    if source.attachments.len() < count {
        return Ok(Execution::Abort { expected: count, actual: source.attachments.len() });
    }
    let (substitutions, files) = split_links(&source.attachments, count);
    match template.to_string(&substitutions) {
        Ok(content) => Ok(Execution::Send { content, files }),
        Err(why) => Err(MacroError::Render(why)),
    }
}

/// The links of stored attachments, in order.
fn stored_links(attachments: &Vec<Attachment>) -> (r: Vec<String>)
    ensures
        views(r@) == links_of(attachments@),
{
    let mut r: Vec<String> = Vec::new();
    let mut k: usize = 0;
    while k < attachments.len()
        invariant
            k <= attachments@.len(),
            r@.len() == k,
            forall|i: int| 0 <= i < k ==> (#[trigger] r@[i])@ == attachments@[i].link@,
        decreases attachments@.len() - k,
    {
        r.push(attachments[k].link.clone());
        k = k + 1;
    }
    assert(views(r@) =~= links_of(attachments@));
    r
}

/// Renders a stored macro, with the links past the placeholders appended as text.
pub fn execute_macro_with_database(stored: &Macro, attachments: &Vec<Attachment>) -> (r: Result<
    Execution,
    MacroError,
>)
    ensures
        stored_outcome(stored.content@, links_of(attachments@), r),
{
    let template = match ParameterizedString::new(stored.content.as_str()) {
        Ok(t) => t,
        Err(why) => return Err(MacroError::Parse(why)),
    };
    let count = template.parameters();
    let links = stored_links(attachments);
    if links.len() < count {
        return Err(
            MacroError::Render(
                RenderError::ParameterCountMismatch { expected: count, actual: links.len() },
            ),
        );
    }
    let (substitutions, extras) = split_links(&links, count);
    assert(views(substitutions@) =~= views(links@).take(count as int));
    assert(views(extras@) =~= views(links@).skip(count as int));
    let mut content = match template.to_string(&substitutions) {
        Ok(c) => c,
        Err(why) => return Err(MacroError::Render(why)),
    };
    if extras.len() > 0 {
        content.push('\n');
        let ghost body = content@;
        let mut k: usize = 0;
        while k < extras.len()
            invariant
                k <= extras@.len(),
                content@ == body + link_lines(views(extras@).take(k as int)),
            decreases extras@.len() - k,
        {
            let ghost before = content@;
            content.push('\n');
            content.push_str(extras[k].as_str());
            assert(views(extras@).take(k + 1).drop_last() =~= views(extras@).take(k as int));
            assert(views(extras@).take(k + 1).last() == extras@[k as int]@);
            assert(content@ =~= body + link_lines(views(extras@).take(k + 1)));
            k = k + 1;
        }
        assert(views(extras@).take(k as int) =~= views(extras@));
        assert(content@ =~= with_links(
            rendered(stored.content@, links_of(attachments@).take(count as int)),
            links_of(attachments@).skip(count as int),
        ));
    }
    Ok(Execution::Send { content, files: Vec::new() })
}

/// Renders a macro from its live source where it could be fetched, and from
/// what was stored otherwise.
pub fn resolve_source(live: Option<SourceMessage>, stored: &Macro, attachments: &Vec<Attachment>) -> (r: Result<Execution, MacroError>)
    ensures
        live matches Some(source) ==> live_outcome(source.content@, source.attachments@, r),
        live is None ==> stored_outcome(stored.content@, links_of(attachments@), r),
{
    match live {
        Some(source) => execute_macro_with_message(&source),
        None => execute_macro_with_database(stored, attachments),
    }
}

/// On a send from the live source, the attachments that fill the placeholders,
/// followed by those attached as files, are the source's attachments in order:
/// none is dropped and none is used twice.
pub proof fn lemma_live_split_keeps_attachments(
    content: Seq<char>,
    atts: Seq<String>,
    r: Result<Execution, MacroError>,
)
    requires
        live_outcome(content, atts, r),
        r matches Ok(Execution::Send { .. }),
    ensures
        r matches Ok(Execution::Send { files, .. }) && atts.take(parameter_count(content) as int)
            + files@ == atts,
{
    let n = parameter_count(content) as int;
    assert(atts.take(n) + atts.skip(n) =~= atts);
}

/// On a send from the stored macro, the links that fill the placeholders,
/// followed by those appended as text, are the stored links in order, and
/// nothing is attached as a file.
pub proof fn lemma_stored_split_keeps_links(
    content: Seq<char>,
    links: Seq<Seq<char>>,
    r: Result<Execution, MacroError>,
)
    requires
        stored_outcome(content, links, r),
        r matches Ok(Execution::Send { .. }),
    ensures
        links.take(parameter_count(content) as int) + links.skip(parameter_count(content) as int)
            == links,
        r matches Ok(Execution::Send { files, .. }) && files@.len() == 0,
{
    let n = parameter_count(content) as int;
    assert(links.take(n) + links.skip(n) =~= links);
}

} // verus!
