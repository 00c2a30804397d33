//! What holds of normalized paths and canonical links.

use crate::classify::{has_protocol_or_reserved_prefix, link_anchor};
use crate::path::{
    base_directory_of, canonical, combined, is_current_dir, is_parent_dir, is_rooted,
    joined_by_slash, kept_segments, normalized, page_directory, path_segments,
};
use crate::text::{first_index, last_index, lemma_first_index, lemma_last_index, lemma_last_index_is};
use vstd::prelude::*;

verus! {

/// Whether `segment` is one that normalization keeps: not empty, not `.`,
/// not `..`, and free of slashes.
pub open spec fn is_plain_segment(segment: Seq<char>) -> bool {
    &&& segment.len() > 0
    &&& !is_current_dir(segment)
    &&& !is_parent_dir(segment)
    &&& !segment.contains('/')
}

/// Whether every one of `segments` is plain.
pub open spec fn all_plain(segments: Seq<Seq<char>>) -> bool {
    forall|k: int| 0 <= k < segments.len() ==> is_plain_segment(#[trigger] segments[k])
}

/// The text after the last slash of `path`; all of `path` if it has none.
pub open spec fn last_segment(path: Seq<char>) -> Seq<char> {
    path.skip(last_index(path, '/') + 1)
}

/// A path has at least one segment, its last segment is what follows its
/// last slash, and no segment holds a slash.
pub proof fn lemma_path_segments(path: Seq<char>)
    ensures
        path_segments(path).len() >= 1,
        path_segments(path).last() == last_segment(path),
        forall|k: int|
            0 <= k < path_segments(path).len() ==> !(#[trigger] path_segments(path)[k]).contains(
                '/',
            ),
    decreases path.len(),
{
    lemma_last_index(path, '/');
    let cut = last_index(path, '/');
    if 0 <= cut < path.len() {
        let front = path.take(cut);
        let tail = path.skip(cut + 1);
        lemma_path_segments(front);
        if tail.contains('/') {
            let w = choose|w: int| 0 <= w < tail.len() && tail[w] == '/';
            assert(path[cut + 1 + w] == '/');
        }
    }
}

/// Normalization keeps plain segments only.
pub proof fn lemma_kept_segments_are_plain(segments: Seq<Seq<char>>)
    requires
        forall|k: int| 0 <= k < segments.len() ==> !(#[trigger] segments[k]).contains('/'),
    ensures
        all_plain(kept_segments(segments)),
    decreases segments.len(),
{
    if segments.len() > 0 {
        lemma_kept_segments_are_plain(segments.drop_last());
    }
}

/// Segments joined by slashes end with the last of them.
pub proof fn lemma_joined_ends_with_last(segments: Seq<Seq<char>>)
    requires
        segments.len() > 0,
    ensures
        segments.last().is_suffix_of(joined_by_slash(segments)),
{
}

/// A normalized path does not end with a slash, unless it is the root
/// alone.
pub proof fn lemma_normalized_has_no_trailing_slash(path: Seq<char>)
    ensures
        normalized(path).len() > 0 && normalized(path).last() == '/' ==> normalized(path)
            == seq!['/'],
{
    lemma_path_segments(path);
    lemma_kept_segments_are_plain(path_segments(path));
    let kept = kept_segments(path_segments(path));
    if kept.len() > 0 {
        // the path ends as the last segment kept does, and that holds no slash
        lemma_joined_ends_with_last(kept);
        let tail = kept.last();
        let joined = joined_by_slash(kept);
        assert(joined.subrange(joined.len() - tail.len(), joined.len() as int) == tail);
    }
}

/// The canonical form of a link without a protocol or the reserved prefix
/// does not end with a slash, unless it is the root alone: a slash at the
/// end of a link is dropped.
pub proof fn lemma_canonical_has_no_trailing_slash(link: Seq<char>, page: Option<Seq<char>>)
    requires
        !has_protocol_or_reserved_prefix(link),
    ensures
        canonical(link, page).len() > 0 && canonical(link, page).last() == '/' ==> canonical(
            link,
            page,
        ) == seq!['/'],
{
    lemma_normalized_has_no_trailing_slash(combined(base_directory_of(page), link));
}

/// Where the last segment of a path is plain, the normal form of the path
/// ends with it.
pub proof fn lemma_plain_last_segment_survives(path: Seq<char>)
    requires
        is_plain_segment(last_segment(path)),
    ensures
        last_segment(path).is_suffix_of(normalized(path)),
{
    lemma_path_segments(path);
}

/// An anchor at the end of a link survives canonicalization: where the
/// part of `link` after its first `#` holds no slash, the canonical form of
/// `link` ends with `#` and that part.
pub proof fn lemma_anchor_survives(link: Seq<char>, page: Option<Seq<char>>)
    requires
        !has_protocol_or_reserved_prefix(link),
        link_anchor(link) is Some,
        !link_anchor(link)->0.contains('/'),
    ensures
        (seq!['#'] + link_anchor(link)->0).is_suffix_of(canonical(link, page)),
{
    let anchor = link_anchor(link)->0;
    let ending = seq!['#'] + anchor;
    let path = combined(base_directory_of(page), link);
    lemma_first_index(link, '#');
    let at = first_index(link, '#');
    // the link, and with it the ending, stands at the end of the path
    let shift = path.len() - link.len();
    let mark = shift + at;
    assert forall|j: int| mark < j < path.len() implies path[j] != '/' by {
        assert(path[j] == link[j - shift]);
        assert(link[j - shift] == anchor[j - shift - at - 1]);
    }
    // so the last slash of the path comes before the mark, in the last segment,
    lemma_last_index(path, '/');
    let tail = last_segment(path);
    // which therefore holds the mark, and is neither empty nor made of dots
    assert(is_plain_segment(tail));
    lemma_plain_last_segment_survives(path);
    assert(tail.subrange(tail.len() - ending.len(), tail.len() as int) =~= ending);
}

/// Joining the segments of a path by slashes gives the path back.
pub proof fn lemma_segments_rejoin(path: Seq<char>)
    ensures
        joined_by_slash(path_segments(path)) == path,
    decreases path.len(),
{
    lemma_last_index(path, '/');
    let cut = last_index(path, '/');
    if 0 <= cut < path.len() {
        let front = path.take(cut);
        lemma_segments_rejoin(front);
        assert(path_segments(front).push(path.skip(cut + 1)).drop_last() =~= path_segments(
            front,
        ));
    }
}

/// Slash-free segments, joined by slashes, are the segments of the result.
proof fn lemma_segments_of_joined(segments: Seq<Seq<char>>)
    requires
        segments.len() > 0,
        forall|k: int| 0 <= k < segments.len() ==> !(#[trigger] segments[k]).contains('/'),
    ensures
        path_segments(joined_by_slash(segments)) == segments,
    decreases segments.len(),
{
    let whole = joined_by_slash(segments);
    if segments.len() == 1 {
        lemma_last_index(whole, '/');
    } else {
        let front = segments.drop_last();
        let tail = segments.last();
        let head = joined_by_slash(front);
        lemma_segments_of_joined(front);
        lemma_last_index_is(whole, '/', head.len() as int);
        assert(whole.take(head.len() as int) =~= head);
        assert(whole.skip(head.len() as int + 1) =~= tail);
    }
}

/// Joining after putting a segment in front is putting the segment and a
/// slash in front of the joined rest.
proof fn lemma_joined_after_first(first: Seq<char>, rest: Seq<Seq<char>>)
    requires
        rest.len() > 0,
    ensures
        joined_by_slash(seq![first] + rest) == first + seq!['/'] + joined_by_slash(rest),
    decreases rest.len(),
{
    let all = seq![first] + rest;
    if rest.len() == 1 {
        assert(all.drop_last() =~= seq![first]);
        assert(joined_by_slash(seq![first]) == first);
    } else {
        lemma_joined_after_first(first, rest.drop_last());
        assert(all.drop_last() =~= seq![first] + rest.drop_last());
    }
}

/// Plain segments that follow others are all kept.
proof fn lemma_plain_segments_are_kept(before: Seq<Seq<char>>, plain: Seq<Seq<char>>)
    requires
        all_plain(plain),
    ensures
        kept_segments(before + plain) == kept_segments(before) + plain,
    decreases plain.len(),
{
    if plain.len() > 0 {
        let front = plain.drop_last();
        assert((before + plain).drop_last() =~= before + front);
        lemma_plain_segments_are_kept(before, front);
    }
}

/// Segments joined by slashes begin with the first of them.
proof fn lemma_joined_begins_with_first(segments: Seq<Seq<char>>)
    requires
        segments.len() > 0,
    ensures
        segments[0].is_prefix_of(joined_by_slash(segments)),
    decreases segments.len(),
{
    if segments.len() > 1 {
        lemma_joined_begins_with_first(segments.drop_last());
    }
}

/// Normalizing a normalized path changes nothing.
pub proof fn lemma_normalized_is_idempotent(path: Seq<char>)
    ensures
        normalized(normalized(path)) == normalized(path),
{
    let clean = normalized(path);
    let none = Seq::<Seq<char>>::empty();
    let blank = Seq::<char>::empty();
    lemma_path_segments(path);
    lemma_kept_segments_are_plain(path_segments(path));
    let kept = kept_segments(path_segments(path));
    assert(kept_segments(none) =~= none);
    if is_rooted(path) {
        // the segments of `clean` are an empty one and those kept of `path`
        let lead = seq![blank];
        assert(kept_segments(lead) =~= none) by {
            assert(lead.drop_last() =~= none);
        }
        if kept.len() > 0 {
            lemma_joined_after_first(blank, kept);
            lemma_segments_of_joined(lead + kept);
            lemma_plain_segments_are_kept(lead, kept);
            assert(none + kept =~= kept);
        } else {
            assert(clean.take(0) =~= blank);
            assert(clean.skip(1) =~= blank);
            lemma_last_index_is(blank, '/', -1);
            assert(path_segments(blank) == lead);
            assert(lead.push(blank).drop_last() =~= lead);
        }
    } else {
        // the segments of `clean` are those kept of `path`
        if kept.len() > 0 {
            lemma_segments_of_joined(kept);
            lemma_plain_segments_are_kept(none, kept);
            assert(!is_rooted(clean)) by {
                lemma_joined_begins_with_first(kept);
                if is_rooted(clean) {
                    assert(kept[0][0] == '/');
                }
            }
        } else {
            assert(seq![blank].drop_last() =~= none);
        }
    }
}

/// A canonical link is its own canonical form, whatever page it is then
/// written on if it begins at the root, and on no page otherwise.
pub proof fn lemma_canonical_is_idempotent(
    link: Seq<char>,
    page: Option<Seq<char>>,
    other: Option<Seq<char>>,
)
    ensures
        canonical(canonical(link, page), None) == canonical(link, page),
        is_rooted(canonical(link, page)) ==> canonical(canonical(link, page), other) == canonical(
            link,
            page,
        ),
{
    if !has_protocol_or_reserved_prefix(link) {
        lemma_normalized_is_idempotent(combined(base_directory_of(page), link));
    }
}

/// The links of a content file are relative to the directory that holds
/// it: for a file name without a slash that ends in `.md`, the directory of
/// `dir/name` is `dir`.
pub proof fn lemma_page_directory_of_content_file(dir: Seq<char>, name: Seq<char>)
    requires
        !name.contains('/'),
        ".md"@.is_suffix_of(name),
    ensures
        page_directory(dir + seq!['/'] + name) == dir,
{
    lemma_last_index_is(dir + seq!['/'] + name, '/', dir.len() as int);
}

} // verus!
