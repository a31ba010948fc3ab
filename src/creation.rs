//! The checks that a new macro must pass before it is stored.

use crate::params::{parameter_count, parse_fails_with, parses, ParameterizedString, ParseError};
use vstd::prelude::*;

verus! {

/// The largest size, in bytes, of an attachment that is sent as a file (10 MiB).
pub const MAX_FILE_SIZE: u64 = 10485760;

/// The longest macro name, in characters.
pub const MAX_NAME_LEN: usize = 32;

/// Why a macro cannot be created.
#[derive(Debug, Clone, Copy, PartialEq, Eq, Structural)]
pub enum CreateError {
    /// The content's placeholders are malformed.
    Parse(ParseError),
    /// The content has more placeholders than the message has attachments.
    TooFewAttachments { parameters: usize, attachments: usize },
    /// An attachment past the placeholders is larger than `MAX_FILE_SIZE`.
    AttachmentTooLarge { position: usize },
}

/// `c` may stand in a macro name.
pub open spec fn is_name_char(c: char) -> bool {
    ('a' <= c && c <= 'z') || c == '-' || c == '_'
}

/// `name` is 1 to 32 characters of `a-z`, `-` and `_`.
pub open spec fn valid_name(name: Seq<char>) -> bool {
    &&& 1 <= name.len() <= MAX_NAME_LEN
    &&& forall|i: int| 0 <= i < name.len() ==> is_name_char(#[trigger] name[i])
}

/// Whether `name` may name a macro.
pub fn is_valid_name(name: &str) -> (r: bool)
    ensures
        r == valid_name(name@),
{
    let s = crate::params::chars_of(name);
    if s.len() == 0 || s.len() > MAX_NAME_LEN {
        return false;
    }
    let mut k: usize = 0;
    while k < s.len()
        invariant
            k <= s@.len(),
            s@ == name@,
            forall|i: int| 0 <= i < k ==> is_name_char(#[trigger] s@[i]),
        decreases s@.len() - k,
    {
        let c = s[k];
        if !(('a' <= c && c <= 'z') || c == '-' || c == '_') {
            assert(!is_name_char(s@[k as int]));
            return false;
        }
        k = k + 1;
    }
    true
}

/// The first attachment at or after `from` that is too large to send as a file.
pub open spec fn first_oversized(sizes: Seq<u64>, from: int) -> Option<int>
    decreases sizes.len() - from,
{
    if from < 0 || from >= sizes.len() {
        None
    } else if sizes[from] > MAX_FILE_SIZE {
        Some(from)
    } else {
        first_oversized(sizes, from + 1)
    }
}

/// Checks the content of a new macro against the sizes of the source message's
/// attachments, in order; on success gives the content's parameter count.
pub fn check_macro_content(content: &str, attachment_sizes: &Vec<u64>) -> (r: Result<
    usize,
    CreateError,
>)
    ensures
        !parses(content@) ==> (r matches Err(CreateError::Parse(err)) && parse_fails_with(
            content@,
            err,
        )),
        parses(content@) && attachment_sizes@.len() < parameter_count(content@) ==> r == Err::<
            usize,
            CreateError,
        >(
            (CreateError::TooFewAttachments {
                parameters: parameter_count(content@) as usize,
                attachments: attachment_sizes@.len() as usize,
            }),
        ),
        parses(content@) && attachment_sizes@.len() >= parameter_count(content@) ==> match first_oversized(
            attachment_sizes@,
            parameter_count(content@) as int,
        ) {
            Some(i) => r == Err::<usize, CreateError>(
                (CreateError::AttachmentTooLarge { position: i as usize }),
            ),
            None => r == Ok::<usize, CreateError>(parameter_count(content@) as usize),
        },
{
    let template = match ParameterizedString::new(content) {
        Ok(t) => t,
        Err(why) => return Err(CreateError::Parse(why)),
    };
    let count = template.parameters();
    if count > attachment_sizes.len() {
        return Err(
            CreateError::TooFewAttachments { parameters: count, attachments: attachment_sizes.len() },
        );
    }
    assert(count == parameter_count(content@));
    let mut k: usize = count;
    while k < attachment_sizes.len()
        invariant
            parses(content@),
            count == parameter_count(content@),
            attachment_sizes@.len() >= parameter_count(content@),
            count <= k <= attachment_sizes@.len(),
            first_oversized(attachment_sizes@, count as int) == first_oversized(
                attachment_sizes@,
                k as int,
            ),
        decreases attachment_sizes@.len() - k,
    {
        if attachment_sizes[k] > MAX_FILE_SIZE {
            return Err(CreateError::AttachmentTooLarge { position: k });
        }
        k = k + 1;
    }
    Ok(count)
}

} // verus!
