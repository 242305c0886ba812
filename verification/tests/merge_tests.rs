use smart_tags::merge::{merge_document, MergeError};
use smart_tags::tagset::union_sorted;

fn tags(xs: &[&str]) -> Vec<String> {
    xs.iter().map(|s| s.to_string()).collect()
}

#[test]
fn scalar_tags_field_is_promoted_to_a_list() {
    let doc = "---\ntags: draft\n---\nbody\n";
    let out = merge_document(doc, &tags(&["urgent"])).unwrap().0;
    assert_eq!(out, "---\ntags:\n- draft\n- urgent\n---\nbody\n");
}

#[test]
fn merged_tags_are_deduplicated_and_sorted() {
    let doc = "---\ntags:\n- b\n- a\n- a\n---\nx";
    let out = merge_document(doc, &tags(&["a"])).unwrap().0;
    assert_eq!(out, "---\ntags:\n- a\n- b\n---\nx");
}

#[test]
fn document_without_block_gains_one() {
    let doc = "hello\nworld\n";
    let out = merge_document(doc, &tags(&["x"])).unwrap().0;
    assert_eq!(out, "---\ntags:\n- x\n---\nhello\nworld\n");
}

#[test]
fn empty_document_gains_a_block() {
    let out = merge_document("", &tags(&["t"])).unwrap().0;
    assert_eq!(out, "---\ntags:\n- t\n---\n");
}

#[test]
fn body_is_preserved_byte_for_byte() {
    let body = "Line one\n--- not a marker alone\nlast line without newline";
    let doc = format!("---\ntitle: Notes\ntags: old\n---\n{}", body);
    let out = merge_document(&doc, &tags(&["new"])).unwrap().0;
    assert!(out.ends_with(body));
    assert!(out.starts_with("---\n"));
    assert!(out.contains("title: Notes"));
    assert!(out.contains("- new"));
    assert!(out.contains("- old"));
}

#[test]
fn other_header_fields_are_kept() {
    let doc = "---\ntitle: hi\n---\nbody";
    let out = merge_document(doc, &tags(&["t"])).unwrap().0;
    assert!(out.contains("title: hi"));
    assert!(out.contains("tags:\n- t"));
    assert!(out.ends_with("---\nbody"));
}

#[test]
fn block_that_is_not_a_mapping_fails() {
    let doc = "---\n- a\n- b\n---\nbody";
    let r = merge_document(doc, &tags(&["t"]));
    assert!(matches!(r, Err(MergeError::NotMapping)));
}

#[test]
fn tags_field_of_another_shape_fails() {
    let doc = "---\ntags: 7\n---\nbody";
    let r = merge_document(doc, &tags(&["t"]));
    assert!(matches!(r, Err(MergeError::TagsBadShape)));
}

#[test]
fn malformed_block_is_replaced_by_a_fresh_one() {
    let doc = "---\n{{{bad\n---\nbody";
    let out = merge_document(doc, &tags(&["x"])).unwrap().0;
    assert_eq!(out, "---\ntags:\n- x\n---\nbody");
}

#[test]
fn non_string_list_items_are_dropped() {
    let doc = "---\ntags:\n- a\n- 3\n- b\n---\nx";
    let out = merge_document(doc, &tags(&[])).unwrap().0;
    assert_eq!(out, "---\ntags:\n- a\n- b\n---\nx");
}

#[test]
fn sorting_is_by_code_point() {
    let doc = "zzz\n";
    let out = merge_document(doc, &tags(&["a", "B"])).unwrap().0;
    assert_eq!(out, "---\ntags:\n- B\n- a\n---\nzzz\n");
}

#[test]
fn unterminated_block_is_all_body() {
    let doc = "---\ntags: a\nno closing marker\n";
    let out = merge_document(doc, &tags(&["x"])).unwrap().0;
    assert_eq!(out, format!("---\ntags:\n- x\n---\n{}", doc));
}

#[test]
fn union_sorted_unions_dedups_and_sorts() {
    let existing = tags(&["pear", "apple", "pear"]);
    let extra = tags(&["banana", "apple"]);
    let r = union_sorted(&existing, &extra);
    assert_eq!(r, tags(&["apple", "banana", "pear"]));
}

#[test]
fn union_sorted_of_nothing_is_empty() {
    let r = union_sorted(&Vec::new(), &Vec::new());
    assert!(r.is_empty());
}

#[test]
fn merge_depends_only_on_the_set_of_new_tags() {
    let doc = "---\ntags: [m]\n---\nbody";
    let a = merge_document(doc, &tags(&["b", "a", "a"])).unwrap();
    let b = merge_document(doc, &tags(&["a", "b"])).unwrap();
    assert_eq!(a.0, b.0);
    assert_eq!(a.1, b.1);
}

#[test]
fn remerging_the_output_changes_nothing() {
    let doc = "---\ntitle: t\ntags: [b, a]\n---\nbody\n";
    let once = merge_document(doc, &tags(&["c"])).unwrap().0;
    let twice = merge_document(&once, &tags(&["c"])).unwrap().0;
    assert_eq!(once, twice);
}

#[test]
fn merged_list_is_returned_with_the_text() {
    let (text, merged) = merge_document("body only", &tags(&["b", "a"])).unwrap();
    assert_eq!(merged, tags(&["a", "b"]));
    assert_eq!(text, "---\ntags:\n- a\n- b\n---\nbody only");
}
