use smart_tags::resolver::{apply_choice, apply_confirm, start_resolution, Resolution};
use smart_tags::vocab::{exact_match, TagEntry, Vocabulary};

fn vocab_with(names: &[&str]) -> Vocabulary {
    let mut tags = Vec::new();
    for n in names {
        tags.push(TagEntry { name: n.to_string(), aliases: Vec::new() });
    }
    Vocabulary { tags }
}

#[test]
fn exact_name_resolves_without_change() {
    let mut vocab = vocab_with(&["project", "draft"]);
    vocab.tags[0].aliases.push("proj".to_string());
    match start_resolution(&vocab, &"project".to_string()) {
        Resolution::Resolved { canonical, changed } => {
            assert_eq!(canonical, "project");
            assert!(!changed);
        }
        _ => panic!("expected an exact resolution"),
    }
    assert_eq!(vocab.tags[0].aliases.len(), 1);
}

#[test]
fn exact_alias_resolves_to_canonical() {
    let mut vocab = vocab_with(&["project"]);
    vocab.tags[0].aliases.push("proj".to_string());
    match start_resolution(&vocab, &"proj".to_string()) {
        Resolution::Resolved { canonical, changed } => {
            assert_eq!(canonical, "project");
            assert!(!changed);
        }
        _ => panic!("expected an exact resolution via the alias"),
    }
}

#[test]
fn exact_match_returns_first_entry() {
    let mut vocab = vocab_with(&["alpha", "beta"]);
    vocab.tags[1].aliases.push("alpha".to_string());
    assert_eq!(exact_match(&vocab, &"alpha".to_string()), Some("alpha".to_string()));
    assert_eq!(exact_match(&vocab, &"gamma".to_string()), None);
}

#[test]
fn fuzzy_candidate_at_distance_two() {
    let vocab = vocab_with(&["project"]);
    match start_resolution(&vocab, &"prjct".to_string()) {
        Resolution::NeedsChoice { candidates } => assert_eq!(candidates, vec![0]),
        _ => panic!("expected a fuzzy candidate at distance 2"),
    }
}

#[test]
fn fuzzy_boundary_distance_three_is_candidate() {
    // "project" -> "ject": drop three characters, edit distance exactly 3.
    let vocab = vocab_with(&["project"]);
    match start_resolution(&vocab, &"ject".to_string()) {
        Resolution::NeedsChoice { candidates } => assert_eq!(candidates, vec![0]),
        _ => panic!("expected a fuzzy candidate at distance 3"),
    }
}

#[test]
fn fuzzy_boundary_distance_four_is_not_candidate() {
    // "project" -> "ect": drop four characters, edit distance 4.
    let vocab = vocab_with(&["project"]);
    match start_resolution(&vocab, &"ect".to_string()) {
        Resolution::NeedsConfirm => {}
        _ => panic!("expected no candidate at distance 4"),
    }
}

#[test]
fn fuzzy_candidates_keep_vocabulary_order() {
    let vocab = vocab_with(&["prose", "arose", "ropes"]);
    match start_resolution(&vocab, &"rose".to_string()) {
        Resolution::NeedsChoice { candidates } => assert_eq!(candidates, vec![0, 1, 2]),
        _ => panic!("expected candidates in vocabulary order"),
    }
}

#[test]
fn choose_candidate_substitutes_once() {
    let mut vocab = vocab_with(&["project"]);
    let candidates = vec![0];
    let r = apply_choice(&mut vocab, &"prjct".to_string(), &candidates, 0);
    assert_eq!(r, Some(("project".to_string(), false)));
    assert!(vocab.tags[0].aliases.is_empty());
    assert_eq!(vocab.tags.len(), 1);
}

#[test]
fn alias_registration_learns() {
    let mut vocab = vocab_with(&["project", "draft"]);
    let input = "proj".to_string();
    let candidates = match start_resolution(&vocab, &input) {
        Resolution::NeedsChoice { candidates } => candidates,
        _ => panic!("expected a fuzzy prompt"),
    };
    let r = apply_choice(&mut vocab, &input, &candidates, candidates.len());
    assert_eq!(r, Some(("project".to_string(), true)));
    assert_eq!(vocab.tags[0].aliases, vec!["proj".to_string()]);
    // A later lookup of the same input resolves exactly, with no prompt.
    match start_resolution(&vocab, &input) {
        Resolution::Resolved { canonical, changed } => {
            assert_eq!(canonical, "project");
            assert!(!changed);
        }
        _ => panic!("the learned alias must resolve exactly"),
    }
}

#[test]
fn last_menu_option_defers_to_confirmation() {
    let mut vocab = vocab_with(&["project"]);
    let candidates = vec![0];
    let r = apply_choice(&mut vocab, &"prjct".to_string(), &candidates, candidates.len() + 1);
    assert_eq!(r, None);
    assert_eq!(vocab.tags.len(), 1);
    assert!(vocab.tags[0].aliases.is_empty());
}

#[test]
fn confirmed_registration_appends_entry() {
    let mut vocab = vocab_with(&["project"]);
    let (name, changed) = apply_confirm(&mut vocab, &"zebra".to_string(), true);
    assert_eq!(name, "zebra");
    assert!(changed);
    assert_eq!(vocab.tags.len(), 2);
    assert_eq!(vocab.tags[1].name, "zebra");
    assert!(vocab.tags[1].aliases.is_empty());
}

#[test]
fn declined_registration_leaves_vocabulary_unchanged() {
    let mut vocab = vocab_with(&["project"]);
    let (name, changed) = apply_confirm(&mut vocab, &"zebra".to_string(), false);
    assert_eq!(name, "zebra");
    assert!(!changed);
    assert_eq!(vocab.tags.len(), 1);
    // A later session sees the same vocabulary and must ask again.
    match start_resolution(&vocab, &"zebra".to_string()) {
        Resolution::NeedsConfirm => {}
        _ => panic!("a declined input must prompt again"),
    }
}

#[test]
fn empty_input_goes_through_the_same_pipeline() {
    let mut vocab = Vocabulary { tags: Vec::new() };
    match start_resolution(&vocab, &String::new()) {
        Resolution::NeedsConfirm => {}
        _ => panic!("an empty vocabulary has no candidates"),
    }
    let (name, changed) = apply_confirm(&mut vocab, &String::new(), true);
    assert_eq!(name, "");
    assert!(changed);
    assert_eq!(vocab.tags[0].name, "");
}

#[test]
fn best_match_is_vocabulary_order_not_best_distance() {
    // Both entries are within the threshold; the second is closer, but the
    // first-registered entry is the alias target.
    let mut vocab = vocab_with(&["projectx", "prjct"]);
    let input = "prjctz".to_string();
    let candidates = match start_resolution(&vocab, &input) {
        Resolution::NeedsChoice { candidates } => candidates,
        _ => panic!("expected two fuzzy candidates"),
    };
    assert_eq!(candidates, vec![0, 1]);
    let r = apply_choice(&mut vocab, &input, &candidates, candidates.len());
    assert_eq!(r, Some(("projectx".to_string(), true)));
    assert_eq!(vocab.tags[0].aliases, vec!["prjctz".to_string()]);
    assert!(vocab.tags[1].aliases.is_empty());
}

#[test]
fn session_resolves_and_merges() {
    let mut vocab = vocab_with(&["project"]);
    let mut resolved = Vec::new();

    // "project" resolves exactly; "notes2024" is near nothing and is registered new.
    match start_resolution(&vocab, &"project".to_string()) {
        Resolution::Resolved { canonical, .. } => resolved.push(canonical),
        _ => panic!("expected an exact resolution"),
    }
    match start_resolution(&vocab, &"notes2024".to_string()) {
        Resolution::NeedsConfirm => {
            let (name, changed) = apply_confirm(&mut vocab, &"notes2024".to_string(), true);
            assert!(changed);
            resolved.push(name);
        }
        _ => panic!("expected the new-tag confirmation"),
    }

    let doc = "---\ntags: alpha\n---\ntext\n";
    let (out, merged) = smart_tags::merge::merge_document(doc, &resolved).unwrap();
    assert_eq!(merged, vec!["alpha".to_string(), "notes2024".to_string(), "project".to_string()]);
    assert_eq!(out, "---\ntags:\n- alpha\n- notes2024\n- project\n---\ntext\n");
}
