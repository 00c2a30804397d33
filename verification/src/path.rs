//! Lexical normalization of relative links into absolute paths.
//!
//! A link is joined to the directory of the page that holds it, and the
//! result is cleaned segment by segment: empty segments and `.` are dropped,
//! `..` removes the segment before it. Nothing here looks at a file system,
//! so the target of a link need not exist.

use crate::classify::{has_protocol_or_reserved_prefix, link_has_protocol_or_zola};
use crate::text::{chars_of, find_last, has_suffix, last_index, lemma_last_index_is, optional_text};
use vstd::prelude::*;
use vstd::string::{StrSliceExecFns, StringExecFns};

verus! {

/// Whether `path` begins at the root.
pub open spec fn is_rooted(path: Seq<char>) -> bool {
    path.len() > 0 && path[0] == '/'
}

/// The pieces into which the slashes of `path` cut it, in order. A path
/// with n slashes has n + 1 segments, some of which may be empty.
pub open spec fn path_segments(path: Seq<char>) -> Seq<Seq<char>>
    decreases path.len(),
{
    let cut = last_index(path, '/');
    if 0 <= cut < path.len() {
        path_segments(path.take(cut)).push(path.skip(cut + 1))
    } else {
        seq![path]
    }
}

/// Whether `segment` is `.`, which stands for the directory it is in.
pub open spec fn is_current_dir(segment: Seq<char>) -> bool {
    segment.len() == 1 && segment[0] == '.'
}

/// Whether `segment` is `..`, which stands for the directory above.
pub open spec fn is_parent_dir(segment: Seq<char>) -> bool {
    segment.len() == 2 && segment[0] == '.' && segment[1] == '.'
}

/// The segments kept after `segment` follows `kept`. An empty segment and
/// `.` change nothing; `..` removes the last segment kept, or nothing where
/// none is kept; any other segment is kept as it is.
pub open spec fn after_segment(kept: Seq<Seq<char>>, segment: Seq<char>) -> Seq<Seq<char>> {
    if segment.len() == 0 || is_current_dir(segment) {
        kept
    } else if is_parent_dir(segment) {
        if kept.len() > 0 {
            kept.drop_last()
        } else {
            kept
        }
    } else {
        kept.push(segment)
    }
}

/// The segments kept after all of `segments`, taken from left to right.
pub open spec fn kept_segments(segments: Seq<Seq<char>>) -> Seq<Seq<char>>
    decreases segments.len(),
{
    if segments.len() == 0 {
        Seq::empty()
    } else {
        after_segment(kept_segments(segments.drop_last()), segments.last())
    }
}

/// `segments` written one after the other with a slash between neighbours.
pub open spec fn joined_by_slash(segments: Seq<Seq<char>>) -> Seq<char>
    decreases segments.len(),
{
    if segments.len() == 0 {
        Seq::empty()
    } else if segments.len() == 1 {
        segments[0]
    } else {
        joined_by_slash(segments.drop_last()) + seq!['/'] + segments.last()
    }
}

/// The normal form of `path`: a leading slash if `path` is rooted, then the
/// segments kept of it, joined by slashes.
pub open spec fn normalized(path: Seq<char>) -> Seq<char> {
    let kept = joined_by_slash(kept_segments(path_segments(path)));
    if is_rooted(path) {
        seq!['/'] + kept
    } else {
        kept
    }
}

/// The directory that the links of `page` are relative to. For a content
/// file, whose name ends in `.md`, that is what stands before the last slash
/// (the whole name if it has no slash); any other page is taken as a
/// directory itself.
pub open spec fn page_directory(page: Seq<char>) -> Seq<char> {
    if ".md"@.is_suffix_of(page) && 0 <= last_index(page, '/') {
        page.take(last_index(page, '/'))
    } else {
        page
    }
}

/// The directory that links are relative to: that of the current page, or
/// the empty path where no page is given.
pub open spec fn base_directory_of(current_page: Option<Seq<char>>) -> Seq<char> {
    match current_page {
        Some(page) => page_directory(page),
        None => Seq::empty(),
    }
}

/// `link` seen from `base`: a rooted link stands for itself, as does any
/// link where the base is empty; another link follows the base and a slash.
pub open spec fn combined(base: Seq<char>, link: Seq<char>) -> Seq<char> {
    if is_rooted(link) || base.len() == 0 {
        link
    } else {
        base + seq!['/'] + link
    }
}

/// The canonical form of `link` on `current_page`. A link with a protocol
/// or the reserved prefix is left as it is.
pub open spec fn canonical(link: Seq<char>, current_page: Option<Seq<char>>) -> Seq<char> {
    if has_protocol_or_reserved_prefix(link) {
        link
    } else {
        normalized(combined(base_directory_of(current_page), link))
    }
}

/// The segments kept of what stands before the slash at `start - 1`;
/// nothing where `start` is 0.
spec fn settled(path: Seq<char>, start: int) -> Seq<Seq<char>> {
    if start <= 0 {
        Seq::empty()
    } else {
        kept_segments(path_segments(path.take(start - 1)))
    }
}

/// The texts that `bounds` cut out of `path`.
spec fn pieces(path: Seq<char>, bounds: Seq<(usize, usize)>) -> Seq<Seq<char>> {
    Seq::new(bounds.len(), |k: int| path.subrange(bounds[k].0 as int, bounds[k].1 as int))
}

/// Whether each of `bounds` is a range within a text of length `len`.
spec fn within(bounds: Seq<(usize, usize)>, len: int) -> bool {
    forall|k: int| 0 <= k < bounds.len() ==> (#[trigger] bounds[k]).0 <= bounds[k].1 <= len
}

/// Where `path` has no slash from `start` on and `start` follows a slash
/// or is 0, the last segment of `path` begins at `start`, and the segments
/// kept of `path` are those settled before `start` followed by that segment.
proof fn lemma_last_segment(path: Seq<char>, start: int)
    requires
        0 <= start <= path.len(),
        start > 0 ==> path[start - 1] == '/',
        forall|j: int| start <= j < path.len() ==> path[j] != '/',
    ensures
        kept_segments(path_segments(path)) == after_segment(
            settled(path, start),
            path.skip(start),
        ),
{
    lemma_last_index_is(path, '/', start - 1);
    if start == 0 {
        assert(path.skip(0) =~= path);
        assert(kept_segments(seq![path].drop_last()) =~= Seq::<Seq<char>>::empty());
    } else {
        let before = path_segments(path.take(start - 1));
        assert(before.push(path.skip(start)).drop_last() =~= before);
    }
}

/// Applies the segment `chars[from..to]` to the segments kept so far.
fn settle_segment(chars: &Vec<char>, kept: &mut Vec<(usize, usize)>, from: usize, to: usize)
    requires
        from <= to <= chars.len(),
        within(old(kept)@, chars@.len() as int),
    ensures
        within(final(kept)@, chars@.len() as int),
        pieces(chars@, final(kept)@) == after_segment(
            pieces(chars@, old(kept)@),
            chars@.subrange(from as int, to as int),
        ),
{
    let ghost segment = chars@.subrange(from as int, to as int);
    let ghost before = pieces(chars@, kept@);
    let len: usize = to - from;
    if len == 0 {
    } else if len == 1 && chars[from] == '.' {
        assert(segment[0] == chars@[from as int]);
    } else if len == 2 && chars[from] == '.' && chars[from + 1] == '.' {
        assert(segment[0] == chars@[from as int]);
        assert(segment[1] == chars@[from + 1]);
        kept.pop();
        assert(pieces(chars@, kept@) =~= after_segment(before, segment));
    } else {
        if len == 1 {
            assert(segment[0] == chars@[from as int]);
        }
        kept.push((from, to));
    }
}

/// The directory that the links on the current page are relative to.
pub fn base_directory<'a>(current_page_path: Option<&'a str>) -> (base: &'a str)
    ensures
        base@ == base_directory_of(optional_text(current_page_path)),
{
    match current_page_path {
        Some(page) => {
            let chars = chars_of(page);
            if has_suffix(&chars, ".md") {
                match find_last(&chars, '/') {
                    Some(cut) => page.substring_char(0, cut),
                    None => page,
                }
            } else {
                page
            }
        },
        None => {
            proof {
                reveal_strlit("");
            }
            ""
        },
    }
}

/// The path that `link` names when it is written on a page in `base`.
pub fn combined_path(base: &str, link: &str) -> (path: String)
    ensures
        path@ == combined(base@, link@),
{
    let link_chars = chars_of(link);
    let rooted = link_chars.len() > 0 && link_chars[0] == '/';
    if rooted || base.unicode_len() == 0 {
        String::from_str(link)
    } else {
        proof {
            reveal_strlit("/");
        }
        assert("/"@ =~= seq!['/']);
        let mut path = String::from_str(base);
        path.append("/");
        path.append(link);
        path
    }
}

/// The bounds of the segments kept of `chars`, in order.
fn kept_bounds(chars: &Vec<char>) -> (kept: Vec<(usize, usize)>)
    ensures
        within(kept@, chars@.len() as int),
        pieces(chars@, kept@) == kept_segments(path_segments(chars@)),
{
    let n = chars.len();
    let mut kept: Vec<(usize, usize)> = Vec::new();
    let mut start: usize = 0;
    let mut i: usize = 0;
    while i < n
        invariant
            n == chars@.len(),
            start <= i <= n,
            start > 0 ==> chars@[start - 1] == '/',
            forall|j: int| start <= j < i ==> chars@[j] != '/',
            within(kept@, n as int),
            pieces(chars@, kept@) == settled(chars@, start as int),
        decreases n - i,
    {
        if chars[i] == '/' {
            proof {
                let seen = chars@.take(i as int);
                lemma_last_segment(seen, start as int);
                assert(seen.skip(start as int) =~= chars@.subrange(start as int, i as int));
                if start > 0 {
                    assert(seen.take(start - 1) =~= chars@.take(start - 1));
                }
            }
            settle_segment(chars, &mut kept, start, i);
            start = i + 1;
        }
        i += 1;
    }
    proof {
        lemma_last_segment(chars@, start as int);
    }
    settle_segment(chars, &mut kept, start, n);
    kept
}

/// Writes out the pieces of `path` within `bounds`, joined by slashes, after
/// a leading slash where `rooted`.
fn joined_pieces(path: &str, rooted: bool, bounds: &Vec<(usize, usize)>) -> (clean: String)
    requires
        within(bounds@, path@.len() as int),
    ensures
        clean@ == if rooted {
            seq!['/'] + joined_by_slash(pieces(path@, bounds@))
        } else {
            joined_by_slash(pieces(path@, bounds@))
        },
{
    proof {
        reveal_strlit("/");
    }
    let ghost wanted = pieces(path@, bounds@);
    let mut clean = String::new();
    if rooted {
        clean.append("/");
    }
    let ghost lead = clean@;
    let mut k: usize = 0;
    while k < bounds.len()
        invariant
            k <= bounds.len(),
            "/"@ == seq!['/'],
            within(bounds@, path@.len() as int),
            wanted == pieces(path@, bounds@),
            clean@ == lead + joined_by_slash(wanted.take(k as int)),
        decreases bounds.len() - k,
    {
        proof {
            assert(wanted.take(k + 1).drop_last() =~= wanted.take(k as int));
        }
        if k > 0 {
            clean.append("/");
        }
        let (from, to) = bounds[k];
        clean.append(path.substring_char(from, to));
        k += 1;
    }
    assert(wanted.take(bounds.len() as int) =~= wanted);
    clean
}

/// Brings `path` into its normal form, without `.`, `..` or empty segments
/// and without a slash at its end.
pub fn normalize_path(path: &str) -> (clean: String)
    ensures
        clean@ == normalized(path@),
{
    let chars = chars_of(path);
    let kept = kept_bounds(&chars);
    let rooted = chars.len() > 0 && chars[0] == '/';
    joined_pieces(path, rooted, &kept)
}

/// The canonical form of a link written on the page at `current_page_path`.
///
/// A link with a protocol or the reserved prefix `@/` comes back unchanged.
/// Any other link is joined to the directory of the current page, unless it
/// begins at the root, and normalized.
pub fn canonicalize_relative_path(link: &str, current_page_path: Option<&str>) -> (path: String)
    ensures
        path@ == canonical(link@, optional_text(current_page_path)),
        has_protocol_or_reserved_prefix(link@) ==> path@ == link@,
{
    if link_has_protocol_or_zola(link) {
        return String::from_str(link);
    }
    let base = base_directory(current_page_path);
    let combined = combined_path(base, link);
    normalize_path(combined.as_str())
}

} // verus!
