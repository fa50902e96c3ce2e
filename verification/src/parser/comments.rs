//! Comments.
//!
//! A comment starts with `//` and ends before the end of its line. It is
//! taken out of the text before anything else reads it; the line break
//! stays.

use vstd::prelude::*;
use super::ascii::{NEWLINE, SLASH};

verus! {

/// Whether a comment starts at `pos`.
pub open spec fn comment_at(text: Seq<u8>, pos: int) -> bool {
    0 <= pos && pos + 1 < text.len() && text[pos] == SLASH && text[pos + 1] == SLASH
}

/// `out`, followed by what is left of `text` from `pos` on once its comments
/// are taken out. `inside` says whether `pos` lies in a comment.
pub open spec fn stripped_from(text: Seq<u8>, pos: int, inside: bool, out: Seq<u8>) -> Seq<u8>
    decreases text.len() - pos,
{
    if pos < 0 || pos >= text.len() {
        out
    } else if inside {
        if text[pos] == NEWLINE {
            stripped_from(text, pos + 1, false, out.push(text[pos]))
        } else {
            stripped_from(text, pos + 1, true, out)
        }
    } else if comment_at(text, pos) {
        stripped_from(text, pos + 2, true, out)
    } else {
        stripped_from(text, pos + 1, false, out.push(text[pos]))
    }
}

/// The text without its comments.
pub open spec fn without_comments(text: Seq<u8>) -> Seq<u8> {
    stripped_from(text, 0, false, seq![])
}

/// Takes the comments out of a source text.
pub fn strip_comments(text: &[u8]) -> (out: Vec<u8>)
    ensures
        out@ == without_comments(text@),
{
    let mut out: Vec<u8> = Vec::new();
    let mut pos: usize = 0;
    let mut inside = false;
    while pos < text.len()
        invariant
            pos <= text@.len(),
            stripped_from(text@, pos as int, inside, out@) == without_comments(text@),
        decreases text.len() - pos,
    {
        let c = text[pos];
        if inside {
            if c == NEWLINE {
                out.push(c);
                inside = false;
            }
            pos = pos + 1;
        } else if c == SLASH && pos + 1 < text.len() && text[pos + 1] == SLASH {
            inside = true;
            pos = pos + 2;
        } else {
            out.push(c);
            pos = pos + 1;
        }
    }
    out
}

} // verus!
