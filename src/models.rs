//! The records of the macro store.

use vstd::prelude::*;

verus! {

/// A stored macro: a named template and the message it was made from.
#[derive(Debug, Clone, PartialEq)]
pub struct Macro {
    pub id: i32,
    pub name: String,
    pub description: String,
    pub channel_id: String,
    pub message_id: String,
    pub content: String,
}

/// A stored attachment link of a macro.
#[derive(Debug, Clone, PartialEq)]
pub struct Attachment {
    pub id: i32,
    pub macro_id: i32,
    pub link: String,
}

/// The fields of a macro to be created or replaced.
#[derive(Debug, Clone, PartialEq)]
pub struct NewMacro {
    pub name: String,
    pub description: String,
    pub channel_id: String,
    pub message_id: String,
    pub content: String,
}

/// An attachment link to be stored for a macro.
#[derive(Debug, Clone, PartialEq)]
pub struct NewAttachment {
    pub macro_id: i32,
    pub link: String,
}

/// The links of stored attachments, in order.
pub open spec fn links_of(a: Seq<Attachment>) -> Seq<Seq<char>> {
    a.map_values(|x: Attachment| x.link@)
}

/// The attachment rows that replace the whole attachment set of macro `macro_id`:
/// one per link, in order, each keyed to that macro.
pub fn new_attachments(macro_id: i32, links: &Vec<String>) -> (r: Vec<NewAttachment>)
    ensures
        r@.len() == links@.len(),
        forall|i: int|
            0 <= i < links@.len() ==> (#[trigger] r@[i]).macro_id == macro_id && r@[i].link@
                == links@[i]@,
{
    let mut r: Vec<NewAttachment> = Vec::new();
    let mut k: usize = 0;
    while k < links.len()
        invariant
            k <= links@.len(),
            r@.len() == k,
            forall|i: int|
                0 <= i < k ==> (#[trigger] r@[i]).macro_id == macro_id && r@[i].link@ == links@[i]@,
        decreases links@.len() - k,
    {
        r.push(NewAttachment { macro_id, link: links[k].clone() });
        k = k + 1;
    }
    r
}

} // verus!
