//! The search for the best template: the anchor is paired with one sample
//! after another, each template found is matched against the samples that no
//! earlier template explained, and the one that scores highest is kept.

use crate::score::{byte_len, score_of, score_regex, MATCHED_FLOOR};
use crate::engine::accepts;
use crate::template::{pair_template, pattern_of, regex_from_pair, Template};
use vstd::prelude::*;

verus! {

/// The number of samples that are still available: the entries of
/// `consumed` that are `false`.
pub open spec fn available(consumed: Seq<bool>) -> nat
    decreases consumed.len(),
{
    if consumed.len() == 0 {
        0
    } else if consumed.last() {
        available(consumed.drop_last())
    } else {
        available(consumed.drop_last()) + 1
    }
}

/// Sample `i` is available and has a template in common with the anchor.
pub open spec fn pairs(
    example: Seq<char>,
    samples: Seq<Seq<char>>,
    consumed: Seq<bool>,
    i: int,
) -> bool {
    !consumed[i] && pair_template(example, samples[i]) is Some
}

/// The first sample from `from` on that is available and has a template in
/// common with the anchor; `samples.len()` where there is none.
pub open spec fn first_pairing(
    example: Seq<char>,
    samples: Seq<Seq<char>>,
    consumed: Seq<bool>,
    from: int,
) -> int
    decreases samples.len() - from,
{
    if from < 0 || from >= samples.len() {
        samples.len() as int
    } else if pairs(example, samples, consumed, from) {
        from
    } else {
        first_pairing(example, samples, consumed, from + 1)
    }
}

/// Sample `j` is available and `pattern` matches it.
pub open spec fn hit(
    pattern: Seq<char>,
    samples: Seq<Seq<char>>,
    consumed: Seq<bool>,
    j: int,
) -> bool {
    !consumed[j] && accepts(pattern, samples[j])
}

/// The number of samples before `n` that are available and that `pattern`
/// matches.
pub open spec fn hits_below(
    pattern: Seq<char>,
    samples: Seq<Seq<char>>,
    consumed: Seq<bool>,
    n: int,
) -> nat
    decreases n,
{
    if n <= 0 {
        0
    } else if hit(pattern, samples, consumed, n - 1) {
        hits_below(pattern, samples, consumed, n - 1) + 1
    } else {
        hits_below(pattern, samples, consumed, n - 1)
    }
}

/// The pool after the round in which sample `paired` gave `pattern`: the
/// paired sample is consumed, and so is every sample that `pattern` matches.
pub open spec fn after_round(
    pattern: Seq<char>,
    samples: Seq<Seq<char>>,
    consumed: Seq<bool>,
    paired: int,
) -> Seq<bool> {
    Seq::new(
        consumed.len(),
        |j: int| consumed[j] || j == paired || accepts(pattern, samples[j]),
    )
}

/// The template that the search ends with when it goes on from a pool in
/// which `consumed` marks the samples that are used up, with `best` the best
/// template so far and `best_score` its score. Each round takes the first
/// available sample that has a template in common with the anchor, counts
/// the available samples that the template matches, and keeps the template
/// if it scores higher than the best so far. The search ends when no
/// available sample gives a template.
pub open spec fn selection(
    example: Seq<char>,
    samples: Seq<Seq<char>>,
    consumed: Seq<bool>,
    best: Option<Seq<char>>,
    best_score: int,
) -> Option<Seq<char>>
    decreases available(consumed),
{
    let paired = first_pairing(example, samples, consumed, 0);
    if consumed.len() != samples.len() || paired >= samples.len() {
        best
    } else {
        let pattern = pair_template(example, samples[paired])->0;
        let matched = hits_below(pattern, samples, consumed, samples.len() as int);
        let score = score_of(
            byte_len(example) as nat,
            byte_len(pattern) as nat,
            matched,
            samples.len(),
        );
        let rest = after_round(pattern, samples, consumed, paired);
        proof {
            lemma_first_pairing(example, samples, consumed, 0);
            lemma_round_consumes(pattern, samples, consumed, paired);
        }
        if score > best_score {
            selection(example, samples, rest, Some(pattern), score)
        } else {
            selection(example, samples, rest, best, best_score)
        }
    }
}

/// The template inferred for the anchor `example` from the pool `samples`:
/// what the search ends with when it starts with every sample available and
/// no template.
pub open spec fn inferred(example: Seq<char>, samples: Seq<Seq<char>>) -> Option<Seq<char>> {
    selection(example, samples, Seq::new(samples.len(), |j: int| false), None, 0)
}

/// `pattern` matches two samples of the pool.
pub open spec fn covers_two(pattern: Seq<char>, samples: Seq<Seq<char>>) -> bool {
    exists|i: int, j: int|
        0 <= i < j < samples.len() && #[trigger] accepts(pattern, samples[i]) && #[trigger] accepts(
            pattern,
            samples[j],
        )
}

/// `pattern` is the template that the anchor has in common with a sample of
/// the pool.
pub open spec fn derived_from_pool(
    example: Seq<char>,
    samples: Seq<Seq<char>>,
    pattern: Seq<char>,
) -> bool {
    exists|i: int| 0 <= i < samples.len() && #[trigger] pair_template(example, samples[i]) == Some(pattern)
}

/// `first_pairing` is the first index from `from` on at which `pairs` holds.
pub proof fn lemma_first_pairing(
    example: Seq<char>,
    samples: Seq<Seq<char>>,
    consumed: Seq<bool>,
    from: int,
)
    requires
        0 <= from <= samples.len(),
    ensures
        from <= first_pairing(example, samples, consumed, from) <= samples.len(),
        first_pairing(example, samples, consumed, from) < samples.len() ==> pairs(
            example,
            samples,
            consumed,
            first_pairing(example, samples, consumed, from),
        ),
        forall|i: int|
            from <= i < first_pairing(example, samples, consumed, from) ==> !pairs(
                example,
                samples,
                consumed,
                i,
            ),
    decreases samples.len() - from,
{
    if from < samples.len() && !pairs(example, samples, consumed, from) {
        lemma_first_pairing(example, samples, consumed, from + 1);
    }
}

/// Where `later` marks every sample that `earlier` marks, no more samples
/// are available in `later`; and fewer are if `later` marks one that
/// `earlier` leaves available.
pub proof fn lemma_available_shrinks(earlier: Seq<bool>, later: Seq<bool>)
    requires
        earlier.len() == later.len(),
        forall|j: int| 0 <= j < earlier.len() && earlier[j] ==> later[j],
    ensures
        available(later) <= available(earlier),
        (exists|j: int| 0 <= j < earlier.len() && !earlier[j] && later[j]) ==> available(later)
            < available(earlier),
    decreases earlier.len(),
{
    if earlier.len() > 0 {
        lemma_available_shrinks(earlier.drop_last(), later.drop_last());
        if exists|j: int| 0 <= j < earlier.len() && !earlier[j] && later[j] {
            let j = choose|j: int| 0 <= j < earlier.len() && !earlier[j] && later[j];
            if j < earlier.len() - 1 {
                assert(!earlier.drop_last()[j] && later.drop_last()[j]);
            }
        }
    }
}

/// A round never gives a sample back, and it leaves fewer samples available
/// than it found if the sample it paired was available: the search comes to
/// an end.
pub proof fn lemma_round_consumes(
    pattern: Seq<char>,
    samples: Seq<Seq<char>>,
    consumed: Seq<bool>,
    paired: int,
)
    requires
        0 <= paired < consumed.len(),
        !consumed[paired],
    ensures
        forall|j: int|
            0 <= j < consumed.len() && consumed[j] ==> #[trigger] after_round(
                pattern,
                samples,
                consumed,
                paired,
            )[j],
        available(after_round(pattern, samples, consumed, paired)) < available(consumed),
{
    let rest = after_round(pattern, samples, consumed, paired);
    assert(!consumed[paired] && rest[paired]);
    lemma_available_shrinks(consumed, rest);
}

/// A pattern that matched at least two available samples covers two samples.
pub proof fn lemma_two_hits_cover(
    pattern: Seq<char>,
    samples: Seq<Seq<char>>,
    consumed: Seq<bool>,
    n: int,
)
    requires
        0 <= n <= samples.len(),
        hits_below(pattern, samples, consumed, n) >= 2,
    ensures
        covers_two(pattern, samples),
    decreases n,
{
    if hit(pattern, samples, consumed, n - 1) {
        if hits_below(pattern, samples, consumed, n - 1) >= 2 {
            lemma_two_hits_cover(pattern, samples, consumed, n - 1);
        } else {
            let i = lemma_one_hit(pattern, samples, consumed, n - 1);
            assert(accepts(pattern, samples[i]) && accepts(pattern, samples[n - 1]));
        }
    } else {
        lemma_two_hits_cover(pattern, samples, consumed, n - 1);
    }
}

/// Where a hit was counted below `n`, there is one.
pub proof fn lemma_one_hit(
    pattern: Seq<char>,
    samples: Seq<Seq<char>>,
    consumed: Seq<bool>,
    n: int,
) -> (i: int)
    requires
        hits_below(pattern, samples, consumed, n) >= 1,
    ensures
        0 <= i < n,
        hit(pattern, samples, consumed, i),
    decreases n,
{
    if hit(pattern, samples, consumed, n - 1) {
        n - 1
    } else {
        lemma_one_hit(pattern, samples, consumed, n - 1)
    }
}

/// A template that matched fewer than two samples scores zero, and no score
/// is below zero: such a template is never kept.
pub proof fn lemma_score_needs_two(anchor_len: nat, template_len: nat, matched: nat, total: nat)
    ensures
        score_of(anchor_len, template_len, matched, total) >= 0,
        score_of(anchor_len, template_len, matched, total) > 0 ==> matched >= MATCHED_FLOOR,
{
}

/// What the search keeps: the template it ends with, if any, is the template
/// that the anchor has in common with a sample of the pool, and it matches at
/// least two samples of the pool, provided the same holds of the best
/// template so far.
pub proof fn lemma_selection_keeps(
    example: Seq<char>,
    samples: Seq<Seq<char>>,
    consumed: Seq<bool>,
    best: Option<Seq<char>>,
    best_score: int,
)
    requires
        best_score >= 0,
        best matches Some(pattern) ==> covers_two(pattern, samples) && derived_from_pool(
            example,
            samples,
            pattern,
        ),
    ensures
        selection(example, samples, consumed, best, best_score) matches Some(pattern)
            ==> covers_two(pattern, samples) && derived_from_pool(example, samples, pattern),
    decreases available(consumed),
{
    let paired = first_pairing(example, samples, consumed, 0);
    if consumed.len() == samples.len() && paired < samples.len() {
        let pattern = pair_template(example, samples[paired])->0;
        let matched = hits_below(pattern, samples, consumed, samples.len() as int);
        let score = score_of(
            byte_len(example) as nat,
            byte_len(pattern) as nat,
            matched,
            samples.len(),
        );
        let rest = after_round(pattern, samples, consumed, paired);
        lemma_first_pairing(example, samples, consumed, 0);
        lemma_round_consumes(pattern, samples, consumed, paired);
        if score > best_score {
            lemma_two_hits_cover(pattern, samples, consumed, samples.len() as int);
            assert(pair_template(example, samples[paired]) == Some(pattern));
            lemma_selection_keeps(example, samples, rest, Some(pattern), score);
        } else {
            lemma_selection_keeps(example, samples, rest, best, best_score);
        }
    }
}

/// The inferred template, if there is one, is the template that the anchor
/// has in common with a sample of the pool, and it matches at least two
/// samples of the pool.
pub proof fn lemma_inferred_covers(example: Seq<char>, samples: Seq<Seq<char>>)
    ensures
        inferred(example, samples) matches Some(pattern) ==> covers_two(pattern, samples)
            && derived_from_pool(example, samples, pattern),
{
    lemma_selection_keeps(example, samples, Seq::new(samples.len(), |j: int| false), None, 0);
}

/// With no sample that has a template in common with the anchor, and so with
/// an empty pool, nothing is inferred.
pub proof fn lemma_inferred_none(example: Seq<char>, samples: Seq<Seq<char>>)
    requires
        forall|i: int| 0 <= i < samples.len() ==> pair_template(example, #[trigger] samples[i]) is None,
    ensures
        inferred(example, samples) is None,
{
    let fresh = Seq::new(samples.len(), |j: int| false);
    lemma_first_pairing(example, samples, fresh, 0);
    let paired = first_pairing(example, samples, fresh, 0);
    if paired < samples.len() {
        assert(pairs(example, samples, fresh, paired));
        assert(pair_template(example, samples[paired]) is None);
    }
}

/// Looks for the first sample that is not marked in `tried_mask` and has a
/// template in common with `example`. Marks it and returns its index with
/// the template; returns `None`, and marks nothing, where there is none.
pub fn first_new_regex(example: &str, samples: &Vec<String>, tried_mask: &mut Vec<bool>) -> (found:
    Option<(usize, Template)>)
    requires
        old(tried_mask).len() == samples.len(),
    ensures
        match found {
            Some((i, template)) => {
                &&& i == first_pairing(example@, samples.deep_view(), old(tried_mask)@, 0)
                &&& i < samples.len()
                &&& Some(template@) == pair_template(example@, samples[i as int]@)
                &&& final(tried_mask)@ == old(tried_mask)@.update(i as int, true)
            },
            None => {
                &&& first_pairing(example@, samples.deep_view(), old(tried_mask)@, 0)
                    == samples.len()
                &&& final(tried_mask)@ == old(tried_mask)@
            },
        },
{
    let mut i: usize = 0;
    while i < samples.len()
        invariant
            0 <= i <= samples.len(),
            tried_mask.len() == samples.len(),
            tried_mask@ == old(tried_mask)@,
            first_pairing(example@, samples.deep_view(), tried_mask@, 0) == first_pairing(
                example@,
                samples.deep_view(),
                tried_mask@,
                i as int,
            ),
        decreases samples.len() - i,
    {
        if !tried_mask[i] {
            if let Some(template) = regex_from_pair(example, samples[i].as_str()) {
                tried_mask.set(i, true);
                return Some((i, template));
            }
        }
        i += 1;
    }
    None
}

/// Matches `template` against sample `paired`, which gave the template and
/// is marked in `tried_mask` already, and against every sample that is not
/// marked. Marks the samples that match and returns their number.
pub fn consume_matches(
    template: &Template,
    samples: &Vec<String>,
    tried_mask: &mut Vec<bool>,
    paired: usize,
) -> (matched: usize)
    requires
        old(tried_mask).len() == samples.len(),
        paired < samples.len(),
        old(tried_mask)[paired as int],
    ensures
        matched == hits_below(
            template@,
            samples.deep_view(),
            old(tried_mask)@.update(paired as int, false),
            samples.len() as int,
        ),
        final(tried_mask)@ == after_round(
            template@,
            samples.deep_view(),
            old(tried_mask)@.update(paired as int, false),
            paired as int,
        ),
{
    let ghost before = tried_mask@.update(paired as int, false);
    let mut matched: usize = 0;
    let mut j: usize = 0;
    while j < samples.len()
        invariant
            0 <= j <= samples.len(),
            paired < samples.len(),
            before.len() == samples.len(),
            tried_mask.len() == samples.len(),
            !before[paired as int],
            matched == hits_below(template@, samples.deep_view(), before, j as int),
            matched <= j,
            forall|x: int|
                0 <= x < j ==> #[trigger] tried_mask@[x] == (before[x] || x == paired || accepts(
                    template@,
                    samples.deep_view()[x],
                )),
            forall|x: int|
                j <= x < samples.len() ==> #[trigger] tried_mask@[x] == (before[x] || x == paired),
        decreases samples.len() - j,
    {
        if (j == paired || !tried_mask[j]) && template.is_match(samples[j].as_str()) {
            matched += 1;
            tried_mask.set(j, true);
        }
        j += 1;
    }
    assert(tried_mask@ =~= after_round(template@, samples.deep_view(), before, paired as int));
    matched
}

/// Infers the template that best explains the pool `samples`, seen from the
/// anchor `example`: the anchor is paired with the samples in turn, and of
/// the templates found the one that scores highest is returned, the first of
/// them where several score alike; `None` where none scores above zero.
/// The answer depends on the anchor and on the pool, in its order, alone. A
/// template that is returned is the one that the anchor has in common with a
/// sample of the pool, and it matches at least two samples of the pool.
pub fn infer_regex(example: String, samples: Vec<String>) -> (best: Option<Template>)
    ensures
        pattern_of(best) == inferred(example@, samples.deep_view()),
        best matches Some(template) ==> covers_two(template@, samples.deep_view())
            && derived_from_pool(example@, samples.deep_view(), template@),
{
    let total = samples.len();
    let mut tried_mask: Vec<bool> = vec![false; total];
    let mut best: Option<Template> = None;
    let mut best_score: i32 = 0;
    assert(tried_mask@ =~= Seq::new(total as nat, |j: int| false));
    loop
        invariant
            total == samples.len(),
            tried_mask.len() == total,
            inferred(example@, samples.deep_view()) == selection(
                example@,
                samples.deep_view(),
                tried_mask@,
                pattern_of(best),
                best_score as int,
            ),
        decreases available(tried_mask@),
    {
        let ghost before = tried_mask@;
        match first_new_regex(example.as_str(), &samples, &mut tried_mask) {
            None => {
                proof {
                    lemma_inferred_covers(example@, samples.deep_view());
                }
                return best;
            },
            Some((paired, template)) => {
                proof {
                    lemma_first_pairing(example@, samples.deep_view(), before, 0);
                    lemma_round_consumes(template@, samples.deep_view(), before, paired as int);
                    assert(tried_mask@.update(paired as int, false) =~= before);
                }
                let matched = consume_matches(&template, &samples, &mut tried_mask, paired);
                let score = score_regex(example.as_str(), &template, matched, total);
                if score > best_score {
                    best = Some(template);
                    best_score = score;
                }
            },
        }
    }
}

} // verus!
