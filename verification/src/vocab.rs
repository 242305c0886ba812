//! The user-curated vocabulary: canonical tag names with their aliases, and
//! exact-match lookup of an input string against it.

use vstd::prelude::*;

verus! {

/// One canonical tag with its aliases.
pub struct TagEntry {
    pub name: String,
    pub aliases: Vec<String>,
}

/// The whole vocabulary, in registration order.
pub struct Vocabulary {
    pub tags: Vec<TagEntry>,
}

impl TagEntry {
    /// The input equals this entry's canonical name or one of its aliases.
    pub open spec fn is_hit(self, input: Seq<char>) -> bool {
        self.name@ == input || exists|j: int|
            0 <= j < self.aliases@.len() && self.aliases@[j]@ == input
    }
}

/// Index of the first entry at or after `i` that the input hits, or -1.
pub open spec fn first_hit_from(tags: Seq<TagEntry>, input: Seq<char>, i: int) -> int
    decreases tags.len() - i,
{
    if i < 0 || i >= tags.len() {
        -1
    } else if tags[i].is_hit(input) {
        i
    } else {
        first_hit_from(tags, input, i + 1)
    }
}

impl Vocabulary {
    /// Index of the first entry whose name or aliases the input equals, or -1.
    pub open spec fn first_hit(self, input: Seq<char>) -> int {
        first_hit_from(self.tags@, input, 0)
    }

    /// Some entry's name or alias equals the input exactly.
    pub open spec fn has_hit(self, input: Seq<char>) -> bool {
        self.first_hit(input) >= 0
    }
}

/// A non-negative first hit is in range and is a hit; everything before it is
/// not.
pub proof fn lemma_first_hit_from(tags: Seq<TagEntry>, input: Seq<char>, i: int)
    requires
        0 <= i <= tags.len(),
    ensures
        first_hit_from(tags, input, i) == -1 ==> forall|j: int|
            i <= j < tags.len() ==> !(#[trigger] tags[j]).is_hit(input),
        first_hit_from(tags, input, i) != -1 ==> i <= first_hit_from(tags, input, i)
            < tags.len() && tags[first_hit_from(tags, input, i)].is_hit(input) && forall|j: int|
            i <= j < first_hit_from(tags, input, i) ==> !(#[trigger] tags[j]).is_hit(input),
    decreases tags.len() - i,
{
    if i < tags.len() && !tags[i].is_hit(input) {
        lemma_first_hit_from(tags, input, i + 1);
    }
}

/// Scan the vocabulary for an entry whose canonical name or alias list holds
/// the input exactly; return the first such entry's canonical name.
pub fn exact_match(vocab: &Vocabulary, input: &String) -> (r: Option<String>)
    ensures
        match r {
            Some(name) => vocab.has_hit(input@) && name@ == vocab.tags@[vocab.first_hit(
                input@,
            )].name@,
            None => !vocab.has_hit(input@),
        },
{
    let n = vocab.tags.len();
    let mut i: usize = 0;
    while i < n
        invariant
            i <= n,
            n == vocab.tags@.len(),
            first_hit_from(vocab.tags@, input@, 0) == first_hit_from(vocab.tags@, input@, i as int),
        decreases n - i,
    {
        let entry = &vocab.tags[i];
        let mut hit = entry.name == *input;
        let m = entry.aliases.len();
        let mut j: usize = 0;
        while j < m
            invariant
                j <= m,
                m == entry.aliases@.len(),
                hit == (entry.name@ == input@ || exists|k: int|
                    0 <= k < j && entry.aliases@[k]@ == input@),
            decreases m - j,
        {
            if entry.aliases[j] == *input {
                hit = true;
            }
            j = j + 1;
        }
        if hit {
            assert(vocab.tags@[i as int].is_hit(input@));
            return Some(entry.name.clone());
        }
        assert(!vocab.tags@[i as int].is_hit(input@));
        i = i + 1;
    }
    proof {
        lemma_first_hit_from(vocab.tags@, input@, i as int);
    }
    None
}

} // verus!
