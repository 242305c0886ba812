//! The trusted boundary around serde_yaml: parsing a header block, reading
//! the shape of its `tags` field, writing the merged list back, and rendering
//! the mapping to text. Each outcome that is a function of the arguments
//! alone is named, so that verified callers can say exactly which mapping and
//! which text their results are built from.

use vstd::prelude::*;

verus! {

#[verifier::external_type_specification]
#[verifier::external_body]
pub struct ExMapping(serde_yaml::Mapping);

/// How a header block's text parsed.
pub enum BlockParse {
    /// The text is not valid YAML; by policy the merge proceeds from an empty
    /// mapping.
    Malformed,
    /// Valid YAML whose top level is not a mapping; the merge must fail.
    NotMapping,
    /// A top-level mapping.
    Parsed(serde_yaml::Mapping),
}

/// The shape of the `tags` field, as far as the merge reads it.
pub enum TagsShape {
    /// No `tags` key.
    Absent,
    /// A single scalar string.
    Scalar(String),
    /// A list; items that are not strings come back as `None`.
    List(Vec<Option<String>>),
    /// Any other shape; the merge must fail.
    Other,
}

/// What serde_yaml::from_str makes of a block text: a function of the text
/// alone.
pub uninterp spec fn block_parse_of(s: Seq<char>) -> BlockParse;

/// The mapping's entries: each string key, mapped to the rendered text of its
/// value (a function of the value). Keys that are not strings are outside
/// this view; the documents this library touches key their headers by
/// strings.
pub uninterp spec fn mapping_entries(m: serde_yaml::Mapping) -> Map<Seq<char>, Seq<char>>;

/// The string keys the mapping holds.
pub open spec fn mapping_keys(m: serde_yaml::Mapping) -> Set<Seq<char>> {
    mapping_entries(m).dom()
}

/// What the mapping's `tags` field reads as: a function of the mapping alone.
pub uninterp spec fn tags_shape(m: serde_yaml::Mapping) -> TagsShape;

/// The mapping with its `tags` key set to the given list of strings: what
/// serde_yaml::Mapping::insert leaves behind, a function of the mapping and
/// the list alone.
pub uninterp spec fn with_tags(m: serde_yaml::Mapping, tags: Seq<Seq<char>>) -> serde_yaml::Mapping;

/// The text that serializing the mapping yields, when it succeeds.
pub uninterp spec fn mapping_text(m: serde_yaml::Mapping) -> Seq<char>;

/// Whether serializing the mapping succeeds: a function of the mapping alone.
pub uninterp spec fn renderable(m: serde_yaml::Mapping) -> bool;

/// Setting `tags` touches nothing else: afterwards the key set has gained
/// (at most) `tags`, and every other key still maps to the same value.
pub open spec fn keeps_other_entries(m0: serde_yaml::Mapping, m1: serde_yaml::Mapping) -> bool {
    &&& mapping_keys(m1) == mapping_keys(m0).insert("tags"@)
    &&& forall|k: Seq<char>|
        k != "tags"@ && mapping_keys(m0).contains(k) ==> mapping_entries(m1)[k]
            == mapping_entries(m0)[k]
}

/// Relies on serde_yaml::from_str: parses the text as one YAML value, or
/// fails, deterministically in the text. The arms only tell the outcome
/// apart.
#[verifier::external_body]
pub(crate) fn parse_block(s: &str) -> (r: BlockParse)
    ensures
        r == block_parse_of(s@),
{
    match serde_yaml::from_str::<serde_yaml::Value>(s) {
        Err(_) => BlockParse::Malformed,
        Ok(serde_yaml::Value::Mapping(m)) => BlockParse::Parsed(m),
        Ok(_) => BlockParse::NotMapping,
    }
}

/// Relies on serde_yaml::Mapping::new: a mapping holding no keys, so its
/// `tags` field is absent. Setting `tags` on it leaves a mapping of one key
/// holding a list of strings, which YAML can always represent, so rendering
/// it succeeds; and since serde_yaml::to_string reads only the mapping's
/// entries, every mapping with no entries renders to the same text after the
/// same `tags` are set.
#[verifier::external_body]
pub(crate) fn empty_mapping() -> (m: serde_yaml::Mapping)
    ensures
        mapping_entries(m) =~= Map::empty(),
        (tags_shape(m) is Absent),
        forall|ts: Seq<Seq<char>>| renderable(#[trigger] with_tags(m, ts)),
        forall|m2: serde_yaml::Mapping, ts: Seq<Seq<char>>|
            mapping_entries(m2) =~= Map::empty() ==> mapping_text(#[trigger] with_tags(m2, ts))
                == mapping_text(with_tags(m, ts)),
{
    serde_yaml::Mapping::new()
}

/// Relies on serde_yaml::Mapping::get, which returns `None` exactly when the
/// key is absent, and on the Value variant accessors.
#[verifier::external_body]
pub(crate) fn tags_field(m: &serde_yaml::Mapping) -> (t: TagsShape)
    ensures
        t == tags_shape(*m),
        (t is Absent) == !mapping_keys(*m).contains("tags"@),
{
    match m.get("tags") {
        None => TagsShape::Absent,
        Some(serde_yaml::Value::String(s)) => TagsShape::Scalar(s.clone()),
        Some(serde_yaml::Value::Sequence(items)) => TagsShape::List(
            items.iter().map(
                |v| match v {
                    serde_yaml::Value::String(s) => Some(s.clone()),
                    _ => None,
                },
            ).collect(),
        ),
        Some(_) => TagsShape::Other,
    }
}

/// Relies on serde_yaml::Mapping::insert (index-map semantics): the `tags`
/// key's value is added or replaced in place, every other entry kept
/// untouched; the outcome is a function of the mapping and the list.
#[verifier::external_body]
pub(crate) fn set_tags(m: &mut serde_yaml::Mapping, tags: &Vec<String>)
    ensures
        *final(m) == with_tags(*old(m), crate::tagset::seq_views(tags@)),
        mapping_keys(*final(m)) == mapping_keys(*old(m)).insert("tags"@),
        keeps_other_entries(*old(m), *final(m)),
{
    let items: Vec<serde_yaml::Value> = tags.iter().map(
        |s| serde_yaml::Value::String(s.clone()),
    ).collect();
    m.insert(
        serde_yaml::Value::String("tags".to_string()),
        serde_yaml::Value::Sequence(items),
    );
}

/// Relies on serde_yaml::to_string: renders the mapping as YAML text; both
/// success and the text are functions of the mapping's contents alone (it
/// fails only on values YAML cannot represent).
#[verifier::external_body]
pub(crate) fn mapping_to_text(m: &serde_yaml::Mapping) -> (r: Option<String>)
    ensures
        (r is Some) == renderable(*m),
        r matches Some(s) ==> s@ == mapping_text(*m),
{
    match serde_yaml::to_string(m) {
        Ok(s) => Some(s),
        Err(_) => None,
    }
}

} // verus!
