//! Classification of link strings: recognized prefixes and the anchor split.

use crate::text::{
    chars_of, find_first, first_index, has_prefix, lemma_first_index, lemma_first_index_is,
    optional_text,
};
use vstd::prelude::*;
use vstd::string::StrSliceExecFns;

verus! {

/// Whether `link` begins with one of the recognized schemes or with the
/// prefix `@/` that marks a path relative to the content root. The test is
/// case-sensitive and looks at nothing but the beginning of the text.
pub open spec fn has_protocol_or_reserved_prefix(link: Seq<char>) -> bool {
    ||| "http://"@.is_prefix_of(link)
    ||| "https://"@.is_prefix_of(link)
    ||| "mailto:"@.is_prefix_of(link)
    ||| "ftp://"@.is_prefix_of(link)
    ||| "file://"@.is_prefix_of(link)
    ||| "@/"@.is_prefix_of(link)
}

/// The part of `link` before its first `#`; all of it if it has none.
pub open spec fn link_base(link: Seq<char>) -> Seq<char> {
    link.take(first_index(link, '#'))
}

/// The part of `link` after its first `#`, which may be empty; `None` if
/// `link` has no `#`.
pub open spec fn link_anchor(link: Seq<char>) -> Option<Seq<char>> {
    if first_index(link, '#') < link.len() {
        Some(link.skip(first_index(link, '#') + 1))
    } else {
        None
    }
}

/// The anchor split takes a link apart at its first `#` and nowhere else:
/// the base holds no `#`, a link without `#` is its own base and has no
/// anchor, and any other link is its base, a `#`, and its anchor.
pub proof fn lemma_anchor_split(link: Seq<char>)
    ensures
        !link_base(link).contains('#'),
        link_anchor(link) is Some <==> link.contains('#'),
        link_anchor(link) is None ==> link_base(link) == link,
        link_anchor(link) is Some ==> link == link_base(link) + seq!['#'] + link_anchor(link)->0,
{
    lemma_first_index(link, '#');
}

/// A base without `#` followed by `#` and an anchor splits back into the two.
pub proof fn lemma_anchor_split_of_joined(base: Seq<char>, anchor: Seq<char>)
    requires
        !base.contains('#'),
    ensures
        link_base(base + seq!['#'] + anchor) == base,
        link_anchor(base + seq!['#'] + anchor) == Some(anchor),
{
    lemma_first_index_is(base + seq!['#'] + anchor, '#', base.len() as int);
}

/// Whether `link` carries a protocol or the reserved prefix `@/`.
pub fn link_has_protocol_or_zola(link: &str) -> (found: bool)
    ensures
        found == has_protocol_or_reserved_prefix(link@),
{
    let chars = chars_of(link);
    has_prefix(&chars, "http://") || has_prefix(&chars, "https://") || has_prefix(
        &chars,
        "mailto:",
    ) || has_prefix(&chars, "ftp://") || has_prefix(&chars, "file://") || has_prefix(&chars, "@/")
}

/// Splits `link` at its first `#` into the base before it and the anchor
/// after it. A link without `#` comes back whole, with no anchor.
pub fn extract_anchor(link: &str) -> (parts: (&str, Option<&str>))
    ensures
        parts.0@ == link_base(link@),
        optional_text(parts.1) == link_anchor(link@),
{
    let chars = chars_of(link);
    match find_first(&chars, '#') {
        Some(at) => {
            let end = chars.len();
            let base = link.substring_char(0, at);
            let anchor = link.substring_char(at + 1, end);
            (base, Some(anchor))
        },
        None => (link, None),
    }
}

} // verus!
