//! The normalized tag list: unique strings in ascending code-point order, and
//! the union of existing and newly resolved tags into that shape.

use vstd::prelude::*;
use crate::text::lex_lt;
use crate::text::str_lt;
use crate::text::lemma_lex_total;
use crate::text::lemma_lex_trans;
use crate::text::lemma_lex_irrefl;

verus! {

/// Some element of `xs` reads `t`.
pub open spec fn has_str(xs: Seq<String>, t: Seq<char>) -> bool {
    exists|i: int| 0 <= i < xs.len() && xs[i]@ == t
}

/// Strictly ascending in the code-point order; in particular, duplicate-free.
pub open spec fn strict_sorted(xs: Seq<String>) -> bool {
    forall|i: int, j: int| 0 <= i < j < xs.len() ==> lex_lt(xs[i]@, xs[j]@)
}

/// Insert `s` into the sorted, duplicate-free list `out`, keeping it so; a
/// string already present is not added again.
fn insert_tag(out: &mut Vec<String>, s: &String)
    requires
        strict_sorted(old(out)@),
    ensures
        strict_sorted(final(out)@),
        forall|t: Seq<char>| #[trigger]
            has_str(final(out)@, t) <==> has_str(old(out)@, t) || t == s@,
{
    let ghost r0 = out@;
    let n = out.len();
    let mut p: usize = 0;
    loop
        invariant_except_break
            p <= n,
            n == out@.len(),
            out@ == r0,
            forall|j: int| 0 <= j < p ==> lex_lt(#[trigger] out@[j]@, s@),
        ensures
            p <= n,
            n == out@.len(),
            out@ == r0,
            forall|j: int| 0 <= j < p ==> lex_lt(#[trigger] out@[j]@, s@),
            p < n ==> !lex_lt(out@[p as int]@, s@),
        decreases n - p,
    {
        if p == n {
            break ;
        }
        if !str_lt(out[p].as_str(), s.as_str()) {
            break ;
        }
        p = p + 1;
    }
    if p < n && out[p] == *s {
        proof {
            assert forall|t: Seq<char>| #[trigger]
                has_str(out@, t) <==> has_str(r0, t) || t == s@ by {
                if t == s@ {
                    assert(out@[p as int]@ == t);
                }
            }
        }
        return ;
    }
    proof {
        if p < n {
            lemma_lex_total(out@[p as int]@, s@);
            assert(lex_lt(s@, out@[p as int]@));
        }
    }
    out.insert(p, s.clone());
    proof {
        r0.insert_ensures(p as int, out@[p as int]);
        assert(out@[p as int]@ == s@);
        // Sortedness of the extended list.
        assert forall|i: int, j: int| 0 <= i < j < out@.len() implies lex_lt(
            out@[i]@,
            out@[j]@,
        ) by {
            if j < p {
                assert(out@[i] == r0[i] && out@[j] == r0[j]);
            } else if i < p && j == p {
                assert(out@[i] == r0[i]);
            } else if i < p && j > p {
                assert(out@[i] == r0[i] && out@[j] == r0[j - 1]);
                if p == j - 1 {
                    assert(lex_lt(out@[i]@, s@) && lex_lt(s@, out@[j]@));
                    lemma_lex_trans(out@[i]@, s@, out@[j]@);
                } else {
                    assert(lex_lt(r0[i]@, r0[j - 1]@));
                }
            } else if i == p {
                assert(out@[j] == r0[j - 1]);
                assert(lex_lt(s@, r0[p as int]@));
                if j - 1 > p {
                    assert(lex_lt(r0[p as int]@, r0[j - 1]@));
                    lemma_lex_trans(s@, r0[p as int]@, r0[j - 1]@);
                }
            } else {
                assert(out@[i] == r0[i - 1] && out@[j] == r0[j - 1]);
            }
        }
        // Membership in the extended list.
        assert forall|t: Seq<char>| #[trigger]
            has_str(out@, t) <==> has_str(r0, t) || t == s@ by {
            if has_str(out@, t) {
                let k = choose|k: int| 0 <= k < out@.len() && out@[k]@ == t;
                if k < p {
                    assert(r0[k]@ == t);
                } else if k > p {
                    assert(r0[k - 1]@ == t);
                }
            }
            if has_str(r0, t) {
                let k = choose|k: int| 0 <= k < r0.len() && r0[k]@ == t;
                if k < p {
                    assert(out@[k]@ == t);
                } else {
                    assert(out@[k + 1]@ == t);
                }
            }
            if t == s@ {
                assert(out@[p as int]@ == t);
            }
        }
    }
}

/// Union the strings of `existing` and `extra` into a single list of unique
/// strings in ascending code-point order.
pub fn union_sorted(existing: &Vec<String>, extra: &Vec<String>) -> (r: Vec<String>)
    ensures
        strict_sorted(r@),
        forall|t: Seq<char>| #[trigger]
            has_str(r@, t) <==> has_str(existing@, t) || has_str(extra@, t),
{
    let mut out: Vec<String> = Vec::new();
    let mut i: usize = 0;
    while i < existing.len()
        invariant
            i <= existing@.len(),
            strict_sorted(out@),
            forall|t: Seq<char>| #[trigger]
                has_str(out@, t) <==> has_str(existing@.take(i as int), t),
        decreases existing@.len() - i,
    {
        let ghost before = out@;
        insert_tag(&mut out, &existing[i]);
        proof {
            assert(existing@.take(i + 1).drop_last() =~= existing@.take(i as int));
            assert forall|t: Seq<char>| #[trigger]
                has_str(out@, t) <==> has_str(existing@.take(i + 1), t) by {
                let tk1 = existing@.take(i + 1);
                let tk0 = existing@.take(i as int);
                assert(tk1[i as int]@ == existing@[i as int]@);
                if has_str(tk1, t) && t != existing@[i as int]@ {
                    let k = choose|k: int| 0 <= k < tk1.len() && tk1[k]@ == t;
                    assert(tk0[k]@ == t);
                }
                if has_str(tk0, t) {
                    let k = choose|k: int| 0 <= k < tk0.len() && tk0[k]@ == t;
                    assert(tk1[k]@ == t);
                }
            }
        }
        i = i + 1;
    }
    proof {
        assert(existing@.take(existing@.len() as int) =~= existing@);
    }
    let mut j: usize = 0;
    while j < extra.len()
        invariant
            j <= extra@.len(),
            strict_sorted(out@),
            forall|t: Seq<char>| #[trigger]
                has_str(out@, t) <==> has_str(existing@, t) || has_str(
                    extra@.take(j as int),
                    t,
                ),
        decreases extra@.len() - j,
    {
        insert_tag(&mut out, &extra[j]);
        proof {
            assert forall|t: Seq<char>| #[trigger]
                has_str(out@, t) <==> has_str(existing@, t) || has_str(
                    extra@.take(j + 1),
                    t,
                ) by {
                let tk1 = extra@.take(j + 1);
                let tk0 = extra@.take(j as int);
                assert(tk1[j as int]@ == extra@[j as int]@);
                if has_str(tk1, t) && t != extra@[j as int]@ {
                    let k = choose|k: int| 0 <= k < tk1.len() && tk1[k]@ == t;
                    assert(tk0[k]@ == t);
                }
                if has_str(tk0, t) {
                    let k = choose|k: int| 0 <= k < tk0.len() && tk0[k]@ == t;
                    assert(tk1[k]@ == t);
                }
            }
        }
        j = j + 1;
    }
    proof {
        assert(extra@.take(extra@.len() as int) =~= extra@);
    }
    out
}

/// A strictly sorted list never repeats a string.
pub proof fn lemma_strict_sorted_unique(xs: Seq<String>, i: int, j: int)
    requires
        strict_sorted(xs),
        0 <= i < j < xs.len(),
    ensures
        xs[i]@ != xs[j]@,
{
    lemma_lex_irrefl(xs[i]@);
}

/// The character sequences of a list of strings.
pub open spec fn seq_views(xs: Seq<String>) -> Seq<Seq<char>> {
    xs.map_values(|s: String| s@)
}

/// Strictly ascending character sequences, duplicate-free.
pub open spec fn strict_sorted_views(ts: Seq<Seq<char>>) -> bool {
    forall|i: int, j: int| 0 <= i < j < ts.len() ==> lex_lt(ts[i], ts[j])
}

/// The views of a strictly sorted string list are strictly sorted, and they
/// hold the same members.
pub proof fn lemma_views_of_sorted(xs: Seq<String>)
    ensures
        strict_sorted(xs) ==> strict_sorted_views(seq_views(xs)),
        forall|t: Seq<char>| #[trigger] seq_views(xs).contains(t) == has_str(xs, t),
{
    assert forall|t: Seq<char>| #[trigger] seq_views(xs).contains(t) == has_str(xs, t) by {
        if seq_views(xs).contains(t) {
            let i = choose|i: int| 0 <= i < seq_views(xs).len() && seq_views(xs)[i] == t;
            assert(xs[i]@ == t);
        }
        if has_str(xs, t) {
            let i = choose|i: int| 0 <= i < xs.len() && xs[i]@ == t;
            assert(seq_views(xs)[i] == t);
        }
    }
}

/// A strictly sorted, duplicate-free list is canonical in its set of members:
/// two such lists with the same members are the same list. So the merged tag
/// value depends only on which tags go in, not on their order or repetition.
pub proof fn lemma_sorted_views_canonical(a: Seq<Seq<char>>, b: Seq<Seq<char>>)
    requires
        strict_sorted_views(a),
        strict_sorted_views(b),
        forall|t: Seq<char>| #[trigger] a.contains(t) == b.contains(t),
    ensures
        a == b,
    decreases a.len(),
{
    if a.len() == 0 {
        if b.len() > 0 {
            assert(b.contains(b[0]));
            assert(a.contains(b[0]));
        }
        assert(a =~= b);
    } else {
        assert(a.contains(a[0]));
        assert(b.contains(a[0]));
        assert(b.len() > 0);
        assert(a[0] == b[0]) by {
            let i = choose|i: int| 0 <= i < b.len() && b[i] == a[0];
            if i > 0 {
                assert(lex_lt(b[0], b[i]));
                assert(b.contains(b[0]));
                assert(a.contains(b[0]));
                let j = choose|j: int| 0 <= j < a.len() && a[j] == b[0];
                if j > 0 {
                    assert(lex_lt(a[0], a[j]));
                    lemma_lex_trans(b[0], a[0], b[0]);
                }
                lemma_lex_irrefl(b[0]);
            }
        }
        let at = a.drop_first();
        let bt = b.drop_first();
        assert(strict_sorted_views(at)) by {
            assert forall|i: int, j: int| 0 <= i < j < at.len() implies lex_lt(at[i], at[j]) by {
                assert(at[i] == a[i + 1] && at[j] == a[j + 1]);
            }
        }
        assert(strict_sorted_views(bt)) by {
            assert forall|i: int, j: int| 0 <= i < j < bt.len() implies lex_lt(bt[i], bt[j]) by {
                assert(bt[i] == b[i + 1] && bt[j] == b[j + 1]);
            }
        }
        assert forall|t: Seq<char>| #[trigger] at.contains(t) == bt.contains(t) by {
            if at.contains(t) {
                let i = choose|i: int| 0 <= i < at.len() && at[i] == t;
                assert(a[i + 1] == t);
                assert(a.contains(t));
                let k = choose|k: int| 0 <= k < b.len() && b[k] == t;
                if k == 0 {
                    assert(lex_lt(a[0], a[i + 1]));
                    lemma_lex_irrefl(a[0]);
                }
                assert(bt[k - 1] == t);
            }
            if bt.contains(t) {
                let i = choose|i: int| 0 <= i < bt.len() && bt[i] == t;
                assert(b[i + 1] == t);
                assert(b.contains(t));
                assert(a.contains(t) == b.contains(t));
                let k = choose|k: int| 0 <= k < a.len() && a[k] == t;
                if k == 0 {
                    assert(lex_lt(b[0], b[i + 1]));
                    lemma_lex_irrefl(b[0]);
                }
                assert(at[k - 1] == t);
            }
        }
        lemma_sorted_views_canonical(at, bt);
        assert(a =~= b) by {
            assert(at.len() == bt.len());
            assert forall|i: int| 0 <= i < a.len() implies a[i] == b[i] by {
                if i > 0 {
                    assert(at[i - 1] == bt[i - 1]);
                }
            }
        }
    }
}

} // verus!
