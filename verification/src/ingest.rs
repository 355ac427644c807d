//! Decoding one connection's payload: bytes to text, and the fallback for
//! payloads that are not structured comments.

use crate::laws::lemma_raw_text_identity;
use crate::schema::{encoded_comment, raw_text_view, CommentSchema};
use vstd::prelude::*;

verus! {

/// What `String::from_utf8_lossy` yields on the given bytes.
pub uninterp spec fn utf8_lossy(bytes: Seq<u8>) -> Seq<char>;

/// Relies on `String::from_utf8_lossy`: decodes the bytes as UTF-8,
/// substituting replacement characters for invalid sequences; the result is
/// a function of the bytes alone.
#[verifier::external_body]
fn decode_lossy(bytes: &Vec<u8>) -> (r: String)
    ensures
        r@ == utf8_lossy(bytes@),
{
    String::from_utf8_lossy(bytes).into_owned()
}

/// The message carried by one connection: its accumulated bytes decoded as
/// UTF-8, tolerating malformed sequences.
pub fn payload_text(bytes: &Vec<u8>) -> (r: String)
    ensures
        r@ == utf8_lossy(bytes@),
{
    decode_lossy(bytes)
}

/// Wrap a payload that did not parse as a structured comment: it becomes the
/// `text` field of an otherwise empty schema, so plain-text senders are
/// carried through transparently.
pub fn raw_text_schema(text: String) -> (r: CommentSchema)
    ensures
        r@ == raw_text_view(text@),
{
    CommentSchema {
        text: Some(text),
        icon: None,
        images: None,
        videos: None,
        inline_images: None,
        color: None,
        text_stroke: None,
    }
}

/// The comment text one connection dispatches: the encoding of the schema
/// when the payload parsed as a structured comment, the payload unchanged
/// otherwise — which is itself the encoding of the fallback schema.
pub fn dispatched_text(parsed: Option<CommentSchema>, raw: String) -> (r: String)
    ensures
        (match parsed {
            Some(c) => r@ == encoded_comment(c@),
            None => r@ == raw@,
        }),
        parsed is None ==> r@ == encoded_comment(raw_text_view(raw@)),
{
    match parsed {
        Some(c) => c.to_comment_text(),
        None => {
            proof {
                lemma_raw_text_identity(raw@);
            }
            raw
        },
    }
}

} // verus!
