//! Resolution of content-relative links against the table of published pages.

use crate::classify::{
    extract_anchor, lemma_anchor_split, lemma_anchor_split_of_joined, link_anchor, link_base,
};
use crate::decode::{decoded_text, percent_decode_lossy};
use crate::table::PermalinkTable;
use crate::text::{
    chars_of, first_index, has_prefix, lemma_first_index, lemma_first_index_is, optional_text,
};
use vstd::prelude::*;
use vstd::string::{StrSliceExecFns, StringExecFns};

verus! {

/// What a content-relative link resolves to.
#[derive(Debug, PartialEq, Eq, Clone)]
pub struct ResolvedInternalLink {
    /// The address of the target page, followed by `#` and the anchor where
    /// the link has one.
    pub permalink: String,
    /// The path of the target file relative to the content root, which is the
    /// key under which the table holds the page.
    pub md_path: String,
    /// The anchor that the link names. Whether the target page has such an
    /// anchor is not known here.
    pub anchor: Option<String>,
}

/// The mathematical value of a `ResolvedInternalLink`.
pub ghost struct ResolvedLinkView {
    pub permalink: Seq<char>,
    pub md_path: Seq<char>,
    pub anchor: Option<Seq<char>>,
}

impl View for ResolvedInternalLink {
    type V = ResolvedLinkView;

    open spec fn view(&self) -> ResolvedLinkView {
        ResolvedLinkView {
            permalink: self.permalink@,
            md_path: self.md_path@,
            anchor: match self.anchor {
                Some(a) => Some(a@),
                None => None,
            },
        }
    }
}

/// The failure to find a link's target among the published pages.
#[derive(Debug, PartialEq, Eq, Clone)]
pub struct LinkNotFound {
    /// The link as it was written.
    pub link: String,
}

impl LinkNotFound {
    /// The text that reports this failure to an author.
    pub open spec fn message_text(link: Seq<char>) -> Seq<char> {
        "Relative link "@ + link + " not found."@
    }

    /// A sentence that reports this failure, quoting the link as written.
    pub fn message(&self) -> (text: String)
        ensures
            text@ == Self::message_text(self.link@),
    {
        let mut text = String::from_str("Relative link ");
        text.append(self.link.as_str());
        text.append(" not found.");
        text
    }
}

/// `link` without the prefix `@/`, if it begins with it.
pub open spec fn without_reserved_prefix(link: Seq<char>) -> Seq<char> {
    if "@/"@.is_prefix_of(link) {
        link.skip("@/"@.len() as int)
    } else {
        link
    }
}

/// The key under which the target of `link` is looked up: the link without
/// the reserved prefix and without its anchor, percent-decoded.
pub open spec fn permalink_key(link: Seq<char>) -> Seq<char> {
    decoded_text(link_base(without_reserved_prefix(link)))
}

/// The anchor that `link` names, if any.
pub open spec fn permalink_anchor(link: Seq<char>) -> Option<Seq<char>> {
    link_anchor(without_reserved_prefix(link))
}

/// `link`, followed by `#` and the anchor if there is one.
pub open spec fn with_anchor(link: Seq<char>, anchor: Option<Seq<char>>) -> Seq<char> {
    match anchor {
        Some(a) => link + seq!['#'] + a,
        None => link,
    }
}

/// What looking up `key` in `table` resolves to for a link with this anchor:
/// nothing if the table has no entry for `key`.
pub open spec fn resolution_of_key(
    key: Seq<char>,
    anchor: Option<Seq<char>>,
    table: Map<Seq<char>, Seq<char>>,
) -> Option<ResolvedLinkView> {
    if table.contains_key(key) {
        Some(ResolvedLinkView { permalink: with_anchor(table[key], anchor), md_path: key, anchor })
    } else {
        None
    }
}

/// What `link` resolves to against `table`, if its target is published.
pub open spec fn resolution(link: Seq<char>, table: Map<Seq<char>, Seq<char>>) -> Option<
    ResolvedLinkView,
> {
    resolution_of_key(permalink_key(link), permalink_anchor(link), table)
}

/// Splitting undoes joining: a link without `#`, joined with an anchor,
/// splits into that link and that anchor.
pub proof fn lemma_combine_then_extract(link: Seq<char>, anchor: Seq<char>)
    requires
        !link.contains('#'),
    ensures
        link_base(with_anchor(link, Some(anchor))) == link,
        link_anchor(with_anchor(link, Some(anchor))) == Some(anchor),
{
    lemma_anchor_split_of_joined(link, anchor);
}

/// Joining undoes splitting: the base of a link, joined with the anchor of
/// the link, is the link.
pub proof fn lemma_extract_then_combine(link: Seq<char>)
    ensures
        with_anchor(link_base(link), link_anchor(link)) == link,
{
    lemma_anchor_split(link);
}

/// The anchor of a link is the same with and without the reserved prefix.
pub proof fn lemma_anchor_ignores_reserved_prefix(link: Seq<char>)
    ensures
        permalink_anchor(link) == link_anchor(link),
{
    reveal_strlit("@/");
    let prefix = "@/"@;
    if prefix.is_prefix_of(link) {
        let rest = link.skip(2);
        assert(link[0] == prefix[0] && link[1] == prefix[1]);
        lemma_first_index(rest, '#');
        let at = first_index(rest, '#');
        assert forall|j: int| 0 <= j < at + 2 implies link[j] != '#' by {
            if j >= 2 {
                assert(link[j] == rest[j - 2]);
            }
        }
        lemma_first_index_is(link, '#', at + 2);
    }
}

/// A link that is the reserved prefix and a path without `#` has no anchor,
/// and its key is the decoded path: the path itself where it holds no `%`.
pub proof fn lemma_prefixed_link_key(path: Seq<char>)
    requires
        !path.contains('#'),
    ensures
        permalink_anchor("@/"@ + path) is None,
        permalink_key("@/"@ + path) == decoded_text(path),
        !path.contains('%') ==> permalink_key("@/"@ + path) == path,
{
    assert(("@/"@ + path).skip("@/"@.len() as int) =~= path);
    lemma_anchor_split(path);
}

/// Against a table without entries no link resolves.
pub proof fn lemma_empty_table_resolves_nothing(link: Seq<char>)
    ensures
        resolution(link, Map::<Seq<char>, Seq<char>>::empty()) is None,
{
}

/// A link resolves exactly when the table holds its key, and then to the
/// table's entry for the key, followed by `#` and the anchor where the link
/// has one.
pub proof fn lemma_resolution(link: Seq<char>, table: Map<Seq<char>, Seq<char>>)
    ensures
        resolution(link, table) is Some <==> table.contains_key(permalink_key(link)),
        resolution(link, table) matches Some(target) ==> {
            &&& target.md_path == permalink_key(link)
            &&& target.anchor == link_anchor(link)
            &&& target.anchor is None ==> target.permalink == table[permalink_key(link)]
            &&& target.anchor matches Some(anchor) ==> target.permalink == table[permalink_key(
                link,
            )] + seq!['#'] + anchor
        },
{
    lemma_anchor_ignores_reserved_prefix(link);
}

/// Joins a link and an anchor with `#`. Without an anchor the link comes back
/// as it is.
pub fn combine_anchor(link: &str, anchor: Option<&str>) -> (combined: String)
    ensures
        combined@ == with_anchor(link@, optional_text(anchor)),
{
    let mut combined = String::from_str(link);
    match anchor {
        Some(a) => {
            proof {
                reveal_strlit("#");
            }
            combined.append("#");
            combined.append(a);
        },
        None => {},
    }
    combined
}

/// The key for the table lookup and the anchor of `link`. The reserved prefix
/// `@/` is dropped where the link has it, the anchor is split off, and what
/// remains is percent-decoded.
pub fn get_permalink_key_from_link(link: &str) -> (parts: (String, Option<&str>))
    ensures
        parts.0@ == permalink_key(link@),
        optional_text(parts.1) == permalink_anchor(link@),
{
    let chars = chars_of(link);
    let clean_link = if has_prefix(&chars, "@/") {
        proof {
            reveal_strlit("@/");
        }
        link.substring_char(2, chars.len())
    } else {
        link
    };
    let (base, anchor) = extract_anchor(clean_link);
    let key = percent_decode_lossy(base);
    (key, anchor)
}

/// Whether the target of `link` is among the published pages.
pub fn is_link_internal_page(link: &str, permalinks: &PermalinkTable) -> (found: bool)
    ensures
        found == permalinks@.contains_key(permalink_key(link@)),
        found == resolution(link@, permalinks@) is Some,
{
    let (key, _) = get_permalink_key_from_link(link);
    permalinks.contains_key(key.as_str())
}

/// Looks up `key` among the published pages and, where it is found, builds
/// the resolved link with `anchor`. Where it is not, the failure carries
/// `link`, the text that the key was made from.
pub fn resolve_link_key(
    link: &str,
    key: String,
    anchor: Option<&str>,
    permalinks: &PermalinkTable,
) -> (resolved: Result<ResolvedInternalLink, LinkNotFound>)
    ensures
        match resolved {
            Ok(target) => resolution_of_key(key@, optional_text(anchor), permalinks@) == Some(
                target@,
            ),
            Err(failure) => !permalinks@.contains_key(key@) && failure.link@ == link@,
        },
{
    match permalinks.get(key.as_str()) {
        Some(target) => {
            let permalink = combine_anchor(target.as_str(), anchor);
            let anchor = match anchor {
                Some(a) => Some(String::from_str(a)),
                None => None,
            };
            Ok(ResolvedInternalLink { permalink, md_path: key, anchor })
        },
        None => Err(LinkNotFound { link: String::from_str(link) }),
    }
}

/// Resolves a content-relative link such as `@/posts/entry.md#top` to the
/// address of its target. Fails exactly when the table has no entry for the
/// link's key; the failure carries the link as it was written.
pub fn resolve_internal_link(link: &str, permalinks: &PermalinkTable) -> (resolved: Result<
    ResolvedInternalLink,
    LinkNotFound,
>)
    ensures
        match resolved {
            Ok(target) => resolution(link@, permalinks@) == Some(target@),
            Err(failure) => resolution(link@, permalinks@) is None && failure.link@ == link@,
        },
        permalinks@.dom() =~= Set::<Seq<char>>::empty() ==> resolved is Err,
{
    let (key, anchor) = get_permalink_key_from_link(link);
    resolve_link_key(link, key, anchor, permalinks)
}

} // verus!
