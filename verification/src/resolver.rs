//! Resolution of one raw input string against the vocabulary: exact match,
//! fuzzy (edit-distance) candidates, and the decisions that follow from the
//! caller's answers to the disambiguation questions.

use vstd::prelude::*;
use crate::distance::edit_distance;
use crate::distance::levenshtein_distance;
use crate::vocab::TagEntry;
use crate::vocab::Vocabulary;
use crate::vocab::first_hit_from;
use crate::vocab::lemma_first_hit_from;

verus! {

/// Largest edit distance at which an unknown input still suggests an existing
/// canonical name.
pub const FUZZY_THRESHOLD: usize = 3;

/// Entry `i` of the vocabulary is a fuzzy candidate for the input: its
/// canonical name is within the distance threshold.
pub open spec fn is_candidate(v: Vocabulary, input: Seq<char>, i: int) -> bool {
    0 <= i < v.tags@.len() && edit_distance(v.tags@[i].name@, input) <= FUZZY_THRESHOLD
}

/// `c` lists exactly the fuzzy candidates, in vocabulary order.
pub open spec fn candidate_list_exact(v: Vocabulary, input: Seq<char>, c: Seq<usize>) -> bool {
    &&& forall|k: int| 0 <= k < c.len() ==> is_candidate(v, input, #[trigger] c[k] as int)
    &&& forall|k1: int, k2: int| 0 <= k1 < k2 < c.len() ==> c[k1] < c[k2]
    &&& forall|i: int| #[trigger] is_candidate(v, input, i) ==> exists|k: int|
        0 <= k < c.len() && c[k] as int == i
}

/// The threshold is a sharp boundary: a canonical name at edit distance
/// exactly three from the input is a fuzzy candidate, one at distance four is
/// not.
pub proof fn lemma_threshold_boundary(v: Vocabulary, input: Seq<char>, i: int)
    requires
        0 <= i < v.tags@.len(),
    ensures
        edit_distance(v.tags@[i].name@, input) == 3 ==> is_candidate(v, input, i),
        edit_distance(v.tags@[i].name@, input) == 4 ==> !is_candidate(v, input, i),
{
}

/// Collect the indices of every entry whose canonical name lies within the
/// distance threshold of the input, in vocabulary order. Aliases are not
/// consulted here.
pub fn fuzzy_candidates(vocab: &Vocabulary, input: &String) -> (r: Vec<usize>)
    ensures
        candidate_list_exact(*vocab, input@, r@),
{
    let n = vocab.tags.len();
    let mut r: Vec<usize> = Vec::new();
    let mut i: usize = 0;
    while i < n
        invariant
            i <= n,
            n == vocab.tags@.len(),
            forall|k: int| 0 <= k < r@.len() ==> is_candidate(*vocab, input@, #[trigger] r@[k] as int)
                && r@[k] < i,
            forall|k1: int, k2: int| 0 <= k1 < k2 < r@.len() ==> r@[k1] < r@[k2],
            forall|j: int| 0 <= j < i && #[trigger] is_candidate(*vocab, input@, j) ==> exists|k: int|
                0 <= k < r@.len() && r@[k] as int == j,
        decreases n - i,
    {
        let d = levenshtein_distance(vocab.tags[i].name.as_str(), input.as_str());
        let ghost r0 = r@;
        if d <= FUZZY_THRESHOLD {
            r.push(i);
            assert(r@ == r0.push(i));
        }
        proof {
            assert forall|j: int| 0 <= j < i + 1 && #[trigger] is_candidate(*vocab, input@, j)
                implies exists|k: int| 0 <= k < r@.len() && r@[k] as int == j by {
                if j == i {
                    assert(r@[r@.len() - 1] as int == j);
                } else {
                    let k = choose|k: int| 0 <= k < r0.len() && r0[k] as int == j;
                    assert(r@[k] as int == j);
                }
            }
        }
        i = i + 1;
    }
    r
}

/// What one resolution step asks of the caller next, if anything.
pub enum Resolution {
    /// The input is settled: use `canonical`; `changed` tells whether the
    /// vocabulary was altered on the way.
    Resolved { canonical: String, changed: bool },
    /// The input is unknown but near these entries; the caller must pick one
    /// of `candidates.len() + 2` menu options (each candidate in order, then
    /// "register as alias of the first candidate", then "create a new tag").
    NeedsChoice { candidates: Vec<usize> },
    /// The input is unknown and near nothing; the caller must confirm or
    /// decline registering it as a new canonical tag.
    NeedsConfirm,
}

/// First resolution step for one input. An exact hit resolves immediately to
/// the canonical name of the first entry hit, without any change; otherwise
/// the caller is told which question to ask.
pub fn start_resolution(vocab: &Vocabulary, input: &String) -> (r: Resolution)
    ensures
        vocab.has_hit(input@) ==> (r matches Resolution::Resolved { canonical, changed }
            && canonical@ == vocab.tags@[vocab.first_hit(input@)].name@ && changed == false),
        !vocab.has_hit(input@) ==> match r {
            Resolution::Resolved { .. } => false,
            Resolution::NeedsChoice { candidates } => candidates@.len() > 0
                && candidate_list_exact(*vocab, input@, candidates@),
            Resolution::NeedsConfirm => forall|i: int| !is_candidate(*vocab, input@, i),
        },
{
    match crate::vocab::exact_match(vocab, input) {
        Some(name) => Resolution::Resolved { canonical: name, changed: false },
        None => {
            let candidates = fuzzy_candidates(vocab, input);
            if candidates.len() > 0 {
                Resolution::NeedsChoice { candidates }
            } else {
                assert forall|i: int| !is_candidate(*vocab, input@, i) by {
                    if is_candidate(*vocab, input@, i) {
                        let k = choose|k: int|
                            0 <= k < candidates@.len() && candidates@[k] as int == i;
                    }
                }
                Resolution::NeedsConfirm
            }
        },
    }
}

/// Apply the caller's answer to a `NeedsChoice` question. A choice of a
/// candidate substitutes its canonical name once; the next option registers
/// the input as an alias of the first candidate; the last option defers to the
/// new-tag confirmation, reported here as `None`.
pub fn apply_choice(
    vocab: &mut Vocabulary,
    input: &String,
    candidates: &Vec<usize>,
    selection: usize,
) -> (r: Option<(String, bool)>)
    requires
        candidates@.len() > 0,
        forall|k: int| 0 <= k < candidates@.len()
            ==> #[trigger] candidates@[k] < old(vocab).tags@.len(),
        selection < candidates@.len() + 2,
    ensures
        selection < candidates@.len() ==> *final(vocab) == *old(vocab) && (r matches Some(p)
            && p.0@ == old(vocab).tags@[candidates@[selection as int] as int].name@ && p.1
            == false),
        selection == candidates@.len() ==> {
            let best = candidates@[0] as int;
            &&& r matches Some(p) && p.0@ == old(vocab).tags@[best].name@ && p.1 == true
            &&& final(vocab).tags@.len() == old(vocab).tags@.len()
            &&& forall|j: int|
                0 <= j < old(vocab).tags@.len() && j != best
                    ==> final(vocab).tags@[j] == old(vocab).tags@[j]
            &&& final(vocab).tags@[best].name == old(vocab).tags@[best].name
            &&& final(vocab).tags@[best].aliases@.len() == old(vocab).tags@[best].aliases@.len()
                + 1
            &&& forall|k: int|
                0 <= k < old(vocab).tags@[best].aliases@.len()
                    ==> final(vocab).tags@[best].aliases@[k] == old(vocab).tags@[best].aliases@[k]
            &&& final(vocab).tags@[best].aliases@.last()@ == input@
        },
        selection == candidates@.len() + 1 ==> *final(vocab) == *old(vocab) && r is None,
{
    if selection < candidates.len() {
        let idx = candidates[selection];
        Some((vocab.tags[idx].name.clone(), false))
    } else if selection == candidates.len() {
        let best = candidates[0];
        let name = vocab.tags[best].name.clone();
        let entry = vstd::std_specs::vec::vec_index_mut(&mut vocab.tags, best);
        entry.aliases.push(input.clone());
        Some((name, true))
    } else {
        None
    }
}

/// Apply the caller's answer to a `NeedsConfirm` question. Accepting appends
/// a brand-new entry named after the input; declining changes nothing, and the
/// input is still used for this run only.
pub fn apply_confirm(vocab: &mut Vocabulary, input: &String, accept: bool) -> (r: (String, bool))
    ensures
        r.0@ == input@,
        r.1 == accept,
        accept ==> final(vocab).tags@.len() == old(vocab).tags@.len() + 1 && (forall|j: int|
            0 <= j < old(vocab).tags@.len() ==> final(vocab).tags@[j] == old(vocab).tags@[j])
            && final(vocab).tags@.last().name@ == input@
            && final(vocab).tags@.last().aliases@.len() == 0,
        !accept ==> *final(vocab) == *old(vocab),
{
    if accept {
        vocab.tags.push(TagEntry { name: input.clone(), aliases: Vec::new() });
        (input.clone(), true)
    } else {
        (input.clone(), false)
    }
}

/// The first hit is `best` when `best` is hit and nothing before it is.
proof fn lemma_first_hit_reaches(tags: Seq<TagEntry>, input: Seq<char>, i: int, best: int)
    requires
        0 <= i <= best < tags.len(),
        tags[best].is_hit(input),
        forall|j: int| i <= j < best ==> !(#[trigger] tags[j]).is_hit(input),
    ensures
        first_hit_from(tags, input, i) == best,
    decreases best - i,
{
    if i < best {
        lemma_first_hit_reaches(tags, input, i + 1, best);
    }
}

/// Alias learning persists: when an input with no exact hit is registered as
/// an alias of entry `best` (and nothing else changes), an exact lookup of the
/// same input in the new vocabulary hits exactly entry `best`, so it resolves
/// to that entry's canonical name with no further question.
pub proof fn lemma_alias_learned(v0: Vocabulary, v1: Vocabulary, input: Seq<char>, best: int)
    requires
        !v0.has_hit(input),
        0 <= best < v0.tags@.len(),
        v1.tags@.len() == v0.tags@.len(),
        forall|j: int| 0 <= j < v0.tags@.len() && j != best ==> v1.tags@[j] == v0.tags@[j],
        v1.tags@[best].name == v0.tags@[best].name,
        v1.tags@[best].aliases@.len() > 0,
        v1.tags@[best].aliases@.last()@ == input,
    ensures
        v1.has_hit(input),
        v1.first_hit(input) == best,
        v1.tags@[v1.first_hit(input)].name@ == v0.tags@[best].name@,
{
    lemma_first_hit_from(v0.tags@, input, 0);
    assert(v1.tags@[best].is_hit(input)) by {
        let k = v1.tags@[best].aliases@.len() - 1;
        assert(v1.tags@[best].aliases@[k]@ == input);
    }
    assert forall|j: int| 0 <= j < best implies !(#[trigger] v1.tags@[j]).is_hit(input) by {
        assert(v1.tags@[j] == v0.tags@[j]);
        assert(!v0.tags@[j].is_hit(input));
    }
    lemma_first_hit_reaches(v1.tags@, input, 0, best);
}

/// A declined registration leaves no trace: an input with no exact hit still
/// has none afterwards, so a later session must ask again.
pub proof fn lemma_declined_still_unknown(v0: Vocabulary, v1: Vocabulary, input: Seq<char>)
    requires
        !v0.has_hit(input),
        v1 == v0,
    ensures
        !v1.has_hit(input),
{
}

} // verus!
