//! The clipboard: what is written to it and how its content is answered.

use vstd::prelude::*;

use crate::json::{Json, JsonView};
use crate::text::complaint;
use crate::values::{and_member, empty_object, no_members, text_member, text_value};

verus! {

/// What is wrong with a request to write to the clipboard.
pub open spec fn write_complaint(input: JsonView) -> Option<Seq<char>> {
    match text_member(input, "text"@) {
        Some(_) => None,
        None => Some("invalid input: text (string) required"@),
    }
}

/// The text that a request asks to write to the clipboard.
pub fn text_to_write(input: &Json) -> (r: Result<String, String>)
    ensures
        complaint(r) == write_complaint(input@),
        r is Ok ==> text_member(input@, "text"@) == Some(r->Ok_0@),
{
    match input.text_at("text") {
        Some(t) => Ok(t.to_string()),
        None => Err("invalid input: text (string) required".to_string()),
    }
}

/// The content of the clipboard as an answer: its text, or the file that its image was saved to, or
/// an empty text where it holds neither.
pub open spec fn content_value(text: Option<Seq<char>>, image: Option<Seq<char>>) -> JsonView {
    match text {
        Some(t) => and_member(no_members(), "text"@, JsonView::Text(t)),
        None => {
            let empty = and_member(no_members(), "text"@, JsonView::Text(Seq::empty()));
            match image {
                Some(file) => and_member(empty, "image"@, JsonView::Text(file)),
                None => empty,
            }
        },
    }
}

/// The content of the clipboard as an answer: its text, or the file that its image was saved to, or
/// an empty text where it holds neither.
pub fn content(text: Option<&str>, image: Option<&str>) -> (r: Json)
    ensures
        r@ == content_value(
            match text {
                Some(t) => Some(t@),
                None => None,
            },
            match image {
                Some(f) => Some(f@),
                None => None,
            },
        ),
{
    match text {
        Some(t) => empty_object().with("text", text_value(t)),
        None => {
            proof {
                reveal_strlit("");
                assert(""@ =~= Seq::<char>::empty());
            }
            let empty: Json = empty_object().with("text", text_value(""));
            match image {
                Some(file) => empty.with("image", text_value(file)),
                None => empty,
            }
        },
    }
}

} // verus!
