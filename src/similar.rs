//! Nearest-path suggestions for unknown configuration variables.
use vstd::prelude::*;

verus! {

/// Largest edit distance at which a known path is still offered as a suggestion.
pub const MAX_SIMILARITY_DISTANCE: usize = 3;

/// The least number of one-character insertions, deletions and substitutions that
/// turn `a` into `b`.
pub open spec fn edit_distance(a: Seq<char>, b: Seq<char>) -> nat
    decreases a.len() + b.len(),
{
    if a.len() == 0 {
        b.len()
    } else if b.len() == 0 {
        a.len()
    } else {
        let del = edit_distance(a.drop_last(), b) + 1;
        let ins = edit_distance(a, b.drop_last()) + 1;
        let sub = edit_distance(a.drop_last(), b.drop_last()) + if a.last() == b.last() {
            0nat
        } else {
            1nat
        };
        if del <= ins && del <= sub {
            del
        } else if ins <= sub {
            ins
        } else {
            sub
        }
    }
}

/// Relies on `levenshtein::levenshtein`: the edit distance of the two strings, counted in
/// characters.
#[verifier::external_body]
fn levenshtein_distance(a: &str, b: &str) -> (r: usize)
    ensures
        r as nat == edit_distance(a@, b@),
{
    levenshtein::levenshtein(a, b)
}

/// Among the first `k` candidates, the index of the first one at the least edit distance
/// from `target`, provided that distance is at most `max`.
pub open spec fn nearest_upto(target: Seq<char>, cands: Seq<Seq<char>>, max: nat, k: nat) -> Option<int>
    decreases k,
{
    if k == 0 {
        None
    } else {
        let prev = nearest_upto(target, cands, max, (k - 1) as nat);
        let d = edit_distance(cands[k - 1], target);
        if d <= max && (prev is None || d < edit_distance(cands[prev->0], target)) {
            Some(k - 1)
        } else {
            prev
        }
    }
}

/// The index of the candidate nearest to `target` (the first one on a tie), if it lies
/// within `max` edits.
pub open spec fn nearest(target: Seq<char>, cands: Seq<Seq<char>>, max: nat) -> Option<int> {
    nearest_upto(target, cands, max, cands.len())
}

proof fn lemma_nearest_upto_range(target: Seq<char>, cands: Seq<Seq<char>>, max: nat, k: nat)
    ensures
        nearest_upto(target, cands, max, k) matches Some(i) ==> 0 <= i < k && edit_distance(
            cands[i],
            target,
        ) <= max,
    decreases k,
{
    if k > 0 {
        lemma_nearest_upto_range(target, cands, max, (k - 1) as nat);
    }
}

/// The candidate nearest to `target` under edit distance, if one lies within
/// `max_distance` edits; on a tie the one that comes first.
pub fn find_similar<'a>(target: &str, candidates: &Vec<&'a str>, max_distance: usize) -> (r: Option<&'a str>)
    ensures
        r is Some <==> nearest(target@, candidates@.map_values(|c: &str| c@), max_distance as nat) is Some,
        r matches Some(s) ==> s@ == candidates@.map_values(|c: &str| c@)[nearest(
            target@,
            candidates@.map_values(|c: &str| c@),
            max_distance as nat,
        )->0],
{
    let ghost cands = candidates@.map_values(|c: &str| c@);
    let mut best: Option<usize> = None;
    let mut best_distance: usize = 0;
    let mut i: usize = 0;
    while i < candidates.len()
        invariant
            i <= candidates@.len(),
            cands == candidates@.map_values(|c: &str| c@),
            best matches Some(b) ==> nearest_upto(target@, cands, max_distance as nat, i as nat) == Some(b as int)
                && best_distance as nat == edit_distance(cands[b as int], target@),
            best is None ==> nearest_upto(target@, cands, max_distance as nat, i as nat) is None,
        decreases candidates@.len() - i,
    {
        let current = levenshtein_distance(candidates[i], target);
        assert(cands[i as int] == candidates@[i as int]@);
        let better = match best {
            Some(_) => current < best_distance,
            None => true,
        };
        if current <= max_distance && better {
            best = Some(i);
            best_distance = current;
        }
        i = i + 1;
    }
    match best {
        Some(b) => {
            proof { lemma_nearest_upto_range(target@, cands, max_distance as nat, i as nat); }
            assert(cands[b as int] == candidates@[b as int]@);
            Some(candidates[b])
        },
        None => None,
    }
}

} // verus!
