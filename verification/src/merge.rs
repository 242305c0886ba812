//! Splitting a document into metadata block and body, merging resolved tags
//! into the block's `tags` field, and reassembling the document with the body
//! kept byte for byte.

use vstd::prelude::*;
use crate::tagset::has_str;
use crate::tagset::strict_sorted;
use crate::tagset::strict_sorted_views;
use crate::tagset::seq_views;
use crate::tagset::lemma_views_of_sorted;
use crate::tagset::union_sorted;
use crate::yaml::BlockParse;
use crate::yaml::TagsShape;
use crate::yaml::block_parse_of;
use crate::yaml::tags_shape;
use crate::yaml::with_tags;
use crate::yaml::mapping_entries;
use crate::yaml::mapping_text;
use crate::yaml::renderable;
use crate::yaml::keeps_other_entries;
use crate::yaml::parse_block;
use crate::yaml::empty_mapping;
use crate::yaml::tags_field;
use crate::yaml::set_tags;
use crate::yaml::mapping_to_text;

verus! {

/// The line that opens a metadata block, with its newline.
pub open spec fn open_marker() -> Seq<char> {
    seq!['-', '-', '-', '\n']
}

/// The closing delimiter as searched for inside the document: a newline
/// followed by the marker line.
pub open spec fn close_marker() -> Seq<char> {
    seq!['\n', '-', '-', '-', '\n']
}

/// The document opens with the marker line.
pub open spec fn starts_with_open(s: Seq<char>) -> bool {
    s.len() >= 4 && s.subrange(0, 4) == open_marker()
}

/// Position of the first closing delimiter at or after `i`, or -1; a
/// delimiter never begins inside the opening line.
pub open spec fn first_close_from(s: Seq<char>, i: int) -> int
    decreases s.len() - i,
{
    if i < 4 || i + 5 > s.len() {
        -1
    } else if s.subrange(i, i + 5) == close_marker() {
        i
    } else {
        first_close_from(s, i + 1)
    }
}

/// Position of the document's closing delimiter, or -1.
pub open spec fn close_pos(s: Seq<char>) -> int {
    first_close_from(s, 4)
}

/// The document carries a metadata block: an opening marker line and, later,
/// a closing one.
pub open spec fn has_block(s: Seq<char>) -> bool {
    starts_with_open(s) && close_pos(s) >= 0
}

/// The block's text, between the marker lines (without the newline that
/// belongs to the closing delimiter).
pub open spec fn spec_header(s: Seq<char>) -> Seq<char> {
    s.subrange(4, close_pos(s))
}

/// The body: everything after the closing delimiter, or the whole document
/// when it has no block.
pub open spec fn spec_body(s: Seq<char>) -> Seq<char> {
    if has_block(s) {
        s.subrange(close_pos(s) + 5, s.len() as int)
    } else {
        s
    }
}

/// Split a document at its metadata block, if it has one, into header text
/// and body.
pub fn split_document(content: &str) -> (r: Option<(String, String)>)
    ensures
        match r {
            Some(p) => has_block(content@) && p.0@ == spec_header(content@) && p.1@ == spec_body(
                content@,
            ),
            None => !has_block(content@),
        },
{
    let n = content.unicode_len();
    if n < 4 || content.get_char(0) != '-' || content.get_char(1) != '-' || content.get_char(2)
        != '-' || content.get_char(3) != '\n' {
        proof {
            if starts_with_open(content@) {
                assert(content@.subrange(0, 4)[0] == '-');
                assert(content@.subrange(0, 4)[1] == '-');
                assert(content@.subrange(0, 4)[2] == '-');
                assert(content@.subrange(0, 4)[3] == '\n');
            }
        }
        return None;
    }
    proof {
        assert(content@.subrange(0, 4) =~= open_marker());
    }
    let mut i: usize = 4;
    while n - i >= 5
        invariant
            4 <= i <= n,
            n == content@.len(),
            starts_with_open(content@),
            close_pos(content@) == first_close_from(content@, i as int),
        decreases n - i,
    {
        let hit = content.get_char(i) == '\n' && content.get_char(i + 1) == '-' && content.get_char(
            i + 2,
        ) == '-' && content.get_char(i + 3) == '-' && content.get_char(i + 4) == '\n';
        if hit {
            proof {
                assert(content@.subrange(i as int, i + 5) =~= close_marker());
                assert(close_pos(content@) == i);
            }
            let header = String::from_str(content.substring_char(4, i));
            let body = String::from_str(content.substring_char(i + 5, n));
            return Some((header, body));
        }
        proof {
            if content@.subrange(i as int, i + 5) == close_marker() {
                assert(content@.subrange(i as int, i + 5)[0] == '\n');
                assert(content@.subrange(i as int, i + 5)[1] == '-');
                assert(content@.subrange(i as int, i + 5)[2] == '-');
                assert(content@.subrange(i as int, i + 5)[3] == '-');
                assert(content@.subrange(i as int, i + 5)[4] == '\n');
            }
            assert(first_close_from(content@, i as int) == first_close_from(content@, i + 1));
        }
        i = i + 1;
    }
    proof {
        assert(first_close_from(content@, i as int) == -1);
    }
    None
}

/// Everything that can stop a merge.
#[derive(Debug)]
pub enum MergeError {
    /// The block parses as YAML, but its top level is not a mapping.
    NotMapping,
    /// The `tags` field is neither a scalar string nor a list.
    TagsBadShape,
    /// The updated mapping could not be rendered back to text.
    Render,
}

/// The strings among a list's items, in order; non-strings are dropped.
pub open spec fn kept_strings(items: Seq<Option<String>>) -> Seq<String>
    decreases items.len(),
{
    if items.len() == 0 {
        Seq::empty()
    } else {
        let rest = kept_strings(items.drop_last());
        match items.last() {
            Some(s) => rest.push(s),
            None => rest,
        }
    }
}

/// Keep the string items of a parsed `tags` list, dropping the rest.
fn filter_strings(items: &Vec<Option<String>>) -> (r: Vec<String>)
    ensures
        r@ == kept_strings(items@),
{
    let mut out: Vec<String> = Vec::new();
    let mut i: usize = 0;
    while i < items.len()
        invariant
            i <= items@.len(),
            out@ == kept_strings(items@.take(i as int)),
        decreases items@.len() - i,
    {
        proof {
            assert(items@.take(i + 1).drop_last() =~= items@.take(i as int));
            assert(items@.take(i + 1).last() == items@[i as int]);
        }
        match &items[i] {
            Some(s) => {
                out.push(s.clone());
            },
            None => {},
        }
        i = i + 1;
    }
    proof {
        assert(items@.take(items@.len() as int) =~= items@);
    }
    out
}

/// The merged `tags` value for each accepted shape of the field: the existing
/// entries (a scalar counts as one entry, a list contributes its string
/// items) unioned with the new tags, as unique strings in ascending
/// code-point order. Only the `Other` shape is refused.
pub fn tags_after_merge(shape: &TagsShape, new_tags: &Vec<String>) -> (r: Result<
    Vec<String>,
    MergeError,
>)
    ensures
        match r {
            Ok(tags) => strict_sorted(tags@) && match *shape {
                TagsShape::Absent => forall|t: Seq<char>| #[trigger]
                    has_str(tags@, t) <==> has_str(new_tags@, t),
                TagsShape::Scalar(s) => forall|t: Seq<char>| #[trigger]
                    has_str(tags@, t) <==> t == s@ || has_str(new_tags@, t),
                TagsShape::List(items) => forall|t: Seq<char>| #[trigger]
                    has_str(tags@, t) <==> has_str(kept_strings(items@), t) || has_str(
                        new_tags@,
                        t,
                    ),
                TagsShape::Other => false,
            },
            Err(e) => *shape is Other && e is TagsBadShape,
        },
{
    match shape {
        TagsShape::Absent => {
            let existing: Vec<String> = Vec::new();
            Ok(union_sorted(&existing, new_tags))
        },
        TagsShape::Scalar(s) => {
            let mut existing: Vec<String> = Vec::new();
            existing.push(s.clone());
            let r = union_sorted(&existing, new_tags);
            proof {
                assert forall|t: Seq<char>| #[trigger]
                    has_str(r@, t) <==> t == s@ || has_str(new_tags@, t) by {
                    if t == s@ {
                        assert(existing@[0]@ == t);
                    }
                    if has_str(existing@, t) {
                        assert(existing@[0]@ == t);
                    }
                }
            }
            Ok(r)
        },
        TagsShape::List(items) => {
            let existing = filter_strings(items);
            Ok(union_sorted(&existing, new_tags))
        },
        TagsShape::Other => Err(MergeError::TagsBadShape),
    }
}

/// The shape the merge reads the `tags` field in, for a given document: the
/// field of the block's parsed mapping, or `Absent` where there is no block
/// or its text is malformed (the leniency policy; a non-mapping block never
/// reaches the field).
pub open spec fn base_tags_shape(content: Seq<char>) -> TagsShape {
    if has_block(content) {
        match block_parse_of(spec_header(content)) {
            BlockParse::Parsed(m) => tags_shape(m),
            _ => TagsShape::Absent,
        }
    } else {
        TagsShape::Absent
    }
}

/// `t` is among the existing tags the merge keeps: the scalar, or one of the
/// string items of the list.
pub open spec fn existing_tag(content: Seq<char>, t: Seq<char>) -> bool {
    match base_tags_shape(content) {
        TagsShape::Scalar(s) => t == s@,
        TagsShape::List(items) => has_str(kept_strings(items@), t),
        _ => false,
    }
}

/// The document text that a successful merge produces, for merged tag views
/// `ts`: the marker line, the rendered mapping — the block's parsed mapping
/// where there is one, else a fresh empty one — with its `tags` set to `ts`
/// and every other entry kept, the marker line, and the body unchanged.
pub open spec fn merged_document_text(content: Seq<char>, out: Seq<char>, ts: Seq<Seq<char>>) -> bool {
    &&& (block_parse_of(spec_header(content)) matches BlockParse::Parsed(m) ==> (has_block(content)
        ==> out == open_marker() + mapping_text(with_tags(m, ts)) + open_marker() + spec_body(
            content,
        ) && keeps_other_entries(m, with_tags(m, ts)) && renderable(with_tags(m, ts))))
    &&& (!(has_block(content) && block_parse_of(spec_header(content)) is Parsed) ==> (
        exists|m0: serde_yaml::Mapping|
            (#[trigger] mapping_entries(m0)) =~= Map::empty() && out == open_marker()
                + mapping_text(with_tags(m0, ts)) + open_marker() + spec_body(content)
                && keeps_other_entries(m0, with_tags(m0, ts)) && renderable(with_tags(m0, ts))))
    &&& (!(has_block(content) && block_parse_of(spec_header(content)) is Parsed) ==> (
        forall|m0: serde_yaml::Mapping|
            (#[trigger] mapping_entries(m0)) =~= Map::empty() ==> out == open_marker()
                + mapping_text(with_tags(m0, ts)) + open_marker() + spec_body(content)))
}

/// A successful merge is a function of the document and the set of new tags:
/// two runs whose merged lists are sorted and hold the same members produce
/// the same list and the same text.
pub proof fn lemma_merge_deterministic(
    content: Seq<char>,
    a_text: Seq<char>,
    a_tags: Seq<String>,
    b_text: Seq<char>,
    b_tags: Seq<String>,
)
    requires
        strict_sorted(a_tags),
        strict_sorted(b_tags),
        forall|t: Seq<char>| #[trigger] has_str(a_tags, t) == has_str(b_tags, t),
        merged_document_text(content, a_text, seq_views(a_tags)),
        merged_document_text(content, b_text, seq_views(b_tags)),
    ensures
        seq_views(a_tags) == seq_views(b_tags),
        a_text == b_text,
{
    lemma_views_of_sorted(a_tags);
    lemma_views_of_sorted(b_tags);
    assert forall|t: Seq<char>| #[trigger]
        seq_views(a_tags).contains(t) == seq_views(b_tags).contains(t) by {
        assert(has_str(a_tags, t) == has_str(b_tags, t));
    }
    crate::tagset::lemma_sorted_views_canonical(seq_views(a_tags), seq_views(b_tags));
    if !(has_block(content) && block_parse_of(spec_header(content)) is Parsed) {
        let m0 = choose|m0: serde_yaml::Mapping|
            (#[trigger] mapping_entries(m0)) =~= Map::empty() && a_text == open_marker()
                + mapping_text(with_tags(m0, seq_views(a_tags))) + open_marker() + spec_body(
                content,
            ) && keeps_other_entries(m0, with_tags(m0, seq_views(a_tags))) && renderable(
                with_tags(m0, seq_views(a_tags)),
            );
        assert(b_text == open_marker() + mapping_text(with_tags(m0, seq_views(b_tags)))
            + open_marker() + spec_body(content));
    }
}

/// Rendering the updated mapping is what refused the merge: for the merged
/// tag views, serializing the would-be mapping fails.
pub open spec fn render_refused(content: Seq<char>, new_tags: Seq<String>) -> bool {
    exists|ts: Seq<Seq<char>>|
        {
            &&& #[trigger] strict_sorted_views(ts)
            &&& forall|t: Seq<char>| #[trigger] ts.contains(t) == (existing_tag(content, t)
                || has_str(new_tags, t))
            &&& (block_parse_of(spec_header(content)) matches BlockParse::Parsed(m) ==> (
                has_block(content) ==> !renderable(with_tags(m, ts))))
            &&& (!(has_block(content) && block_parse_of(spec_header(content)) is Parsed) ==> (
                exists|m0: serde_yaml::Mapping|
                    (#[trigger] mapping_entries(m0)) =~= Map::empty() && !renderable(
                        with_tags(m0, ts),
                    )))
        }
}

/// Merge the resolved tags into the document's metadata block and reassemble
/// it, returning the new text and the merged tag list. The text is the marker
/// line, the rendered updated mapping and the marker line, followed by the
/// original body byte for byte; a document without a block (or with a
/// malformed one) keeps its whole text as the body behind a fresh block. The
/// two structural errors come exactly when the block parses to a non-mapping,
/// or the `tags` field has an unaccepted shape; the only other failure is a
/// mapping that cannot be rendered back.
pub fn merge_document(content: &str, new_tags: &Vec<String>) -> (r: Result<
    (String, Vec<String>),
    MergeError,
>)
    ensures
        (has_block(content@) && block_parse_of(spec_header(content@)) is NotMapping) <==> (
        r matches Err(e) && e is NotMapping),
        (base_tags_shape(content@) is Other) <==> (r matches Err(e) && e is TagsBadShape),
        r matches Ok(p) ==> strict_sorted(p.1@) && (forall|t: Seq<char>| #[trigger]
            has_str(p.1@, t) <==> existing_tag(content@, t) || has_str(new_tags@, t))
            && merged_document_text(content@, p.0@, seq_views(p.1@)),
        r matches Err(e) ==> (e is Render ==> render_refused(content@, new_tags@)),
        !has_block(content@) ==> r is Ok,
        has_block(content@) && (block_parse_of(spec_header(content@)) is Malformed) ==> r is Ok,
{
    let split = split_document(content);
    let (mapping, body) = match split {
        Some((header, body)) => {
            match parse_block(header.as_str()) {
                BlockParse::Parsed(m) => (m, body),
                BlockParse::Malformed => (empty_mapping(), body),
                BlockParse::NotMapping => {
                    return Err(MergeError::NotMapping);
                },
            }
        },
        None => (empty_mapping(), String::from_str(content)),
    };
    let shape = tags_field(&mapping);
    let merged = match tags_after_merge(&shape, new_tags) {
        Ok(t) => t,
        Err(e) => {
            return Err(e);
        },
    };
    let mut mapping = mapping;
    set_tags(&mut mapping, &merged);
    proof {
        lemma_views_of_sorted(merged@);
    }
    let rendered = match mapping_to_text(&mapping) {
        Some(s) => s,
        None => {
            proof {
                let ts = seq_views(merged@);
                assert(forall|t: Seq<char>| #[trigger] ts.contains(t) == (existing_tag(
                    content@,
                    t,
                ) || has_str(new_tags@, t)));
                assert(render_refused(content@, new_tags@));
            }
            return Err(MergeError::Render);
        },
    };
    let mut out = String::from_str("---\n");
    out.append(rendered.as_str());
    out.append("---\n");
    out.append(body.as_str());
    proof {
        reveal_strlit("---\n");
        assert("---\n"@ =~= open_marker());
        assert(out@ == open_marker() + rendered@ + open_marker() + spec_body(content@));
        assert(merged_document_text(content@, out@, seq_views(merged@)));
    }
    Ok((out, merged))
}

} // verus!
