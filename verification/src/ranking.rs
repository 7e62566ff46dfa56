//! The mathematical model of the fuzzy ranking engine.
//!
//! A candidate is classified against a query as an exact match, a prefix
//! match, a substring match, or a fuzzy (in-order character) match; the
//! classes form a total order of tiers.  This module defines that
//! classification over `Seq<char>`, the scoring of substring and fuzzy
//! matches, the stable ordering of a whole result list, and the lemmas the
//! executable matcher is proved against.

use vstd::prelude::*;

verus! {

/// The tier of a match, ascending from strongest to weakest.
#[derive(Clone, Copy, Debug, PartialEq, Eq, Structural)]
pub enum MatchKind {
    Exact,
    Prefix,
    Substring,
    Fuzzy,
    Unfiltered,
}

/// The numeric tier of a kind: lower is stronger.
pub open spec fn kind_tier(k: MatchKind) -> int {
    match k {
        MatchKind::Exact => 0,
        MatchKind::Prefix => 1,
        MatchKind::Substring => 2,
        MatchKind::Fuzzy => 3,
        MatchKind::Unfiltered => 4,
    }
}

/// The model of one ranked result: the candidate, its tier, its score (absent
/// for exact, prefix and unfiltered results) and the matched character
/// offsets within the candidate.
pub ghost struct MatchResultV {
    pub item: Seq<char>,
    pub kind: MatchKind,
    pub score: Option<int>,
    pub hits: Seq<int>,
}

/// The offsets `start`, `start + 1`, ..., `start + len - 1`.
pub open spec fn idx_range(start: int, len: nat) -> Seq<int> {
    Seq::new(len, |i: int| start + i)
}

/// `q` occurs in `item` as a contiguous run starting at offset `i`.
pub open spec fn occurs_at(item: Seq<char>, q: Seq<char>, i: int) -> bool {
    0 <= i && i + q.len() <= item.len() && item.subrange(i, i + q.len() as int) == q
}

/// `q` occurs somewhere in `item` as a contiguous run.
pub open spec fn contains_seq(item: Seq<char>, q: Seq<char>) -> bool {
    exists|i: int| occurs_at(item, q, i)
}

/// The least offset `>= i` at which `q` occurs contiguously in `item`, if any.
pub open spec fn match_pos_from(item: Seq<char>, q: Seq<char>, i: int) -> Option<int>
    decreases item.len() + 1 - i when 0 <= i
{
    if i + q.len() > item.len() {
        None
    } else if item.subrange(i, i + q.len() as int) == q {
        Some(i)
    } else {
        match_pos_from(item, q, i + 1)
    }
}

/// The least offset `>= i` at which character `c` appears in `item`, if any.
pub open spec fn find_from(item: Seq<char>, c: char, i: int) -> Option<int>
    decreases item.len() - i when 0 <= i
{
    if i >= item.len() {
        None
    } else if item[i] == c {
        Some(i)
    } else {
        find_from(item, c, i + 1)
    }
}

/// The offsets consumed by the greedy left-to-right fuzzy scan: each query
/// character is matched at its first occurrence at or after the scan cursor.
/// `None` when some query character cannot be found.
pub open spec fn greedy_hits(item: Seq<char>, q: Seq<char>, from: int) -> Option<Seq<int>>
    decreases q.len(),
{
    if q.len() == 0 {
        Some(Seq::empty())
    } else {
        match find_from(item, q[0], from) {
            None => None,
            Some(p) => match greedy_hits(item, q.drop_first(), p + 1) {
                None => None,
                Some(rest) => Some(seq![p] + rest),
            },
        }
    }
}

/// The fuzzy score of a hit list, given the offset of the hit before it:
/// a hit immediately after the previous one adds 5, any other hit adds 3.
pub open spec fn score_from(hits: Seq<int>, prev: int) -> int
    decreases hits.len(),
{
    if hits.len() == 0 {
        0
    } else {
        (if hits[0] == prev + 1 {
            5int
        } else {
            3int
        }) + score_from(hits.drop_first(), hits[0])
    }
}

/// The fuzzy score of a whole hit list; the first hit always adds 3.
pub open spec fn fuzzy_score(hits: Seq<int>) -> int {
    score_from(hits, -2)
}

/// `q` appears in `item` as a (not necessarily contiguous) subsequence whose
/// offsets all lie at or after `from`.
pub open spec fn subseq_from(item: Seq<char>, q: Seq<char>, from: int) -> bool
    decreases q.len(),
{
    q.len() == 0 || exists|p: int|
        from <= p < item.len() && item[p] == q[0] && subseq_from(item, q.drop_first(), p + 1)
}

/// The classification of one candidate against a non-empty query, mirroring
/// the tier order: exact, then prefix, then contiguous substring (scored by
/// the offset of its leftmost occurrence), then greedy fuzzy (scored by
/// adjacency), and otherwise no match at all.
pub open spec fn match_of(item: Seq<char>, q: Seq<char>) -> Option<MatchResultV> {
    if item == q {
        Some(
            MatchResultV {
                item,
                kind: MatchKind::Exact,
                score: None,
                hits: idx_range(0, q.len()),
            },
        )
    } else if q.is_prefix_of(item) {
        Some(
            MatchResultV {
                item,
                kind: MatchKind::Prefix,
                score: None,
                hits: idx_range(0, q.len()),
            },
        )
    } else {
        match match_pos_from(item, q, 0) {
            Some(d) => Some(
                MatchResultV {
                    item,
                    kind: MatchKind::Substring,
                    score: Some(d),
                    hits: idx_range(d, q.len()),
                },
            ),
            None => match greedy_hits(item, q, 0) {
                Some(h) => Some(
                    MatchResultV {
                        item,
                        kind: MatchKind::Fuzzy,
                        score: Some(fuzzy_score(h)),
                        hits: h,
                    },
                ),
                None => None,
            },
        }
    }
}

/// The unfiltered result used for every candidate when the query is empty.
pub open spec fn unfiltered_of(item: Seq<char>) -> MatchResultV {
    MatchResultV { item, kind: MatchKind::Unfiltered, score: None, hits: Seq::empty() }
}

/// The results of classifying every candidate, in candidate order, matching
/// candidates only.
pub open spec fn raw_results(items: Seq<Seq<char>>, q: Seq<char>) -> Seq<MatchResultV> {
    items.filter_map(|item: Seq<char>| match_of(item, q))
}

/// Score order: an absent score ranks before (stronger than) any present one.
pub open spec fn score_le(a: Option<int>, b: Option<int>) -> bool {
    match (a, b) {
        (None, _) => true,
        (Some(_), None) => false,
        (Some(x), Some(y)) => x <= y,
    }
}

/// The sort order of the result list: by tier, then by score.
pub open spec fn key_le(a: MatchResultV, b: MatchResultV) -> bool {
    kind_tier(a.kind) < kind_tier(b.kind) || (kind_tier(a.kind) == kind_tier(b.kind)
        && score_le(a.score, b.score))
}

/// `r` inserted into `s` directly after every element whose key is less than
/// or equal to `r`'s: where a stable sort puts a newly arriving element.
pub open spec fn insert_stable(s: Seq<MatchResultV>, r: MatchResultV) -> Seq<MatchResultV>
    decreases s.len(),
{
    if s.len() == 0 {
        seq![r]
    } else if key_le(s.last(), r) {
        s.push(r)
    } else {
        insert_stable(s.drop_last(), r).push(s.last())
    }
}

/// The stable sort of a result list by `key_le`: elements with equal keys
/// keep their relative order.
pub open spec fn stable_sort(s: Seq<MatchResultV>) -> Seq<MatchResultV>
    decreases s.len(),
{
    if s.len() == 0 {
        Seq::empty()
    } else {
        insert_stable(stable_sort(s.drop_last()), s.last())
    }
}

/// The full ranking of a candidate list under a query: every candidate
/// unfiltered in candidate order for the empty query, otherwise the matching
/// candidates stably sorted by (tier, score).
pub open spec fn rank_spec(items: Seq<Seq<char>>, q: Seq<char>) -> Seq<MatchResultV> {
    if q.len() == 0 {
        items.map_values(|item: Seq<char>| unfiltered_of(item))
    } else {
        stable_sort(raw_results(items, q))
    }
}

/// A result list is sorted when keys never decrease from left to right.
pub open spec fn sorted_by_key(s: Seq<MatchResultV>) -> bool {
    forall|i: int, j: int| 0 <= i <= j < s.len() ==> key_le(s[i], s[j])
}

/// `match_pos_from` returns the least contiguous occurrence at or after `i`.
pub proof fn lemma_match_pos_from(item: Seq<char>, q: Seq<char>, i: int)
    requires
        0 <= i,
    ensures
        match match_pos_from(item, q, i) {
            Some(d) => occurs_at(item, q, d) && i <= d && forall|j: int|
                i <= j < d ==> !occurs_at(item, q, j),
            None => forall|j: int| i <= j ==> !occurs_at(item, q, j),
        },
    decreases item.len() + 1 - i,
{
    if i + q.len() > item.len() {
        assert forall|j: int| i <= j implies !occurs_at(item, q, j) by {}
    } else if item.subrange(i, i + q.len() as int) == q {
    } else {
        lemma_match_pos_from(item, q, i + 1);
        assert(!occurs_at(item, q, i));
    }
}

/// `find_from` returns the least occurrence of `c` at or after `i`.
pub proof fn lemma_find_from(item: Seq<char>, c: char, i: int)
    requires
        0 <= i,
    ensures
        match find_from(item, c, i) {
            Some(p) => i <= p < item.len() && item[p] == c && forall|j: int|
                i <= j < p ==> item[j] != c,
            None => forall|j: int| i <= j < item.len() ==> item[j] != c,
        },
    decreases item.len() + 1 - i,
{
    if i >= item.len() {
    } else if item[i] == c {
    } else {
        lemma_find_from(item, c, i + 1);
    }
}

/// What the greedy scan finds is a genuine in-order occurrence of the query:
/// one hit per query character, strictly left to right, all at or after
/// `from`, each hit carrying the right character.
pub proof fn lemma_greedy_hits_sound(item: Seq<char>, q: Seq<char>, from: int)
    requires
        0 <= from,
    ensures
        match greedy_hits(item, q, from) {
            Some(h) => h.len() == q.len() && (forall|k: int|
                0 <= k < h.len() ==> from <= #[trigger] h[k] < item.len() && item[h[k]] == q[k])
                && (forall|k: int| 0 < k < h.len() ==> h[k - 1] < #[trigger] h[k]),
            None => true,
        },
    decreases q.len(),
{
    if q.len() == 0 {
    } else {
        lemma_find_from(item, q[0], from);
        match find_from(item, q[0], from) {
            None => {},
            Some(p) => {
                lemma_greedy_hits_sound(item, q.drop_first(), p + 1);
                match greedy_hits(item, q.drop_first(), p + 1) {
                    None => {},
                    Some(rest) => {
                        let h = seq![p] + rest;
                        assert forall|k: int| 0 <= k < h.len() implies from <= #[trigger] h[k]
                            < item.len() && item[h[k]] == q[k] by {
                            if k > 0 {
                                assert(h[k] == rest[k - 1]);
                                assert(q.drop_first()[k - 1] == q[k]);
                            }
                        }
                        assert forall|k: int| 0 < k < h.len() implies h[k - 1] < #[trigger] h[k]
                            by {
                            if k == 1 {
                                assert(h[0] == p && h[1] == rest[0]);
                            } else {
                                assert(h[k] == rest[k - 1] && h[k - 1] == rest[k - 2]);
                            }
                        }
                    },
                }
            },
        }
    }
}

/// A successful greedy scan witnesses the subsequence property.
pub proof fn lemma_greedy_subseq(item: Seq<char>, q: Seq<char>, from: int)
    requires
        0 <= from,
        greedy_hits(item, q, from) is Some,
    ensures
        subseq_from(item, q, from),
    decreases q.len(),
{
    if q.len() == 0 {
    } else {
        lemma_find_from(item, q[0], from);
        let p = find_from(item, q[0], from)->Some_0;
        lemma_greedy_subseq(item, q.drop_first(), p + 1);
    }
}

/// The subsequence property survives loosening the left bound.
pub proof fn lemma_subseq_from_weaken(item: Seq<char>, q: Seq<char>, a: int, b: int)
    requires
        subseq_from(item, q, a),
        b <= a,
    ensures
        subseq_from(item, q, b),
    decreases q.len(),
{
    if q.len() == 0 {
    } else {
        let p = choose|p: int|
            a <= p < item.len() && item[p] == q[0] && subseq_from(item, q.drop_first(), p + 1);
        assert(b <= p < item.len() && item[p] == q[0] && subseq_from(item, q.drop_first(), p + 1));
    }
}

/// The greedy scan is complete: wherever the query occurs as a subsequence,
/// the scan succeeds.
pub proof fn lemma_subseq_greedy(item: Seq<char>, q: Seq<char>, from: int)
    requires
        0 <= from,
        subseq_from(item, q, from),
    ensures
        greedy_hits(item, q, from) is Some,
    decreases q.len(),
{
    if q.len() == 0 {
    } else {
        let p = choose|p: int|
            from <= p < item.len() && item[p] == q[0] && subseq_from(item, q.drop_first(), p + 1);
        lemma_find_from(item, q[0], from);
        match find_from(item, q[0], from) {
            None => {
                assert(false);
            },
            Some(g) => {
                assert(g <= p);
                lemma_subseq_from_weaken(item, q.drop_first(), p + 1, g + 1);
                lemma_subseq_greedy(item, q.drop_first(), g + 1);
            },
        }
    }
}

/// A contiguous occurrence is in particular an in-order occurrence.
pub proof fn lemma_occurs_subseq(item: Seq<char>, q: Seq<char>, i: int)
    requires
        occurs_at(item, q, i),
    ensures
        subseq_from(item, q, i),
    decreases q.len(),
{
    if q.len() == 0 {
    } else {
        assert(item[i] == q[0]) by {
            assert(item.subrange(i, i + q.len() as int)[0] == item[i]);
        }
        assert(occurs_at(item, q.drop_first(), i + 1)) by {
            assert(item.subrange(i + 1, i + q.len() as int) =~= q.drop_first()) by {
                assert forall|k: int| 0 <= k < q.len() - 1 implies item.subrange(
                    i + 1,
                    i + q.len() as int,
                )[k] == q.drop_first()[k] by {
                    assert(item.subrange(i, i + q.len() as int)[k + 1] == item[i + 1 + k]);
                }
            }
        }
        lemma_occurs_subseq(item, q.drop_first(), i + 1);
    }
}

/// A shorter prefix of the query occurs in order wherever the query does.
pub proof fn lemma_subseq_prefix(item: Seq<char>, q1: Seq<char>, q2: Seq<char>, from: int)
    requires
        q1.is_prefix_of(q2),
        subseq_from(item, q2, from),
    ensures
        subseq_from(item, q1, from),
    decreases q1.len(),
{
    if q1.len() == 0 {
    } else {
        let p = choose|p: int|
            from <= p < item.len() && item[p] == q2[0] && subseq_from(item, q2.drop_first(), p + 1);
        assert(q1[0] == q2[0]) by {
            assert(q2.subrange(0, q1.len() as int)[0] == q2[0]);
        }
        assert(q1.drop_first().is_prefix_of(q2.drop_first())) by {
            assert(q1.drop_first() =~= q2.drop_first().subrange(0, q1.len() - 1)) by {
                assert forall|k: int| 0 <= k < q1.len() - 1 implies q1.drop_first()[k]
                    == q2.drop_first()[k] by {
                    assert(q2.subrange(0, q1.len() as int)[k + 1] == q2[k + 1]);
                }
            }
        }
        lemma_subseq_prefix(item, q1.drop_first(), q2.drop_first(), p + 1);
        assert(from <= p < item.len() && item[p] == q1[0] && subseq_from(
            item,
            q1.drop_first(),
            p + 1,
        ));
    }
}

/// A candidate that matches a non-empty query in any tier contains the query
/// as an in-order subsequence.
pub proof fn lemma_match_subseq(item: Seq<char>, q: Seq<char>)
    requires
        match_of(item, q) is Some,
    ensures
        subseq_from(item, q, 0),
{
    if item == q {
        assert(occurs_at(item, q, 0)) by {
            assert(item.subrange(0, q.len() as int) =~= q);
        }
        lemma_occurs_subseq(item, q, 0);
    } else if q.is_prefix_of(item) {
        assert(occurs_at(item, q, 0));
        lemma_occurs_subseq(item, q, 0);
    } else {
        match match_pos_from(item, q, 0) {
            Some(d) => {
                lemma_match_pos_from(item, q, 0);
                lemma_occurs_subseq(item, q, d);
                lemma_subseq_from_weaken(item, q, d, 0);
            },
            None => {
                lemma_greedy_subseq(item, q, 0);
            },
        }
    }
}

/// Appending characters to a query never re-admits an excluded candidate:
/// a candidate with no match for `q1` has none for any extension `q2`.
pub proof fn lemma_extension_excludes(item: Seq<char>, q1: Seq<char>, q2: Seq<char>)
    requires
        q1.is_prefix_of(q2),
        match_of(item, q1) is None,
    ensures
        match_of(item, q2) is None,
{
    if match_of(item, q2) is Some {
        lemma_match_subseq(item, q2);
        lemma_subseq_prefix(item, q1, q2, 0);
        lemma_subseq_greedy(item, q1, 0);
        assert(match_of(item, q1) is Some);
        assert(false);
    }
}

/// Inserting stably: one element longer, the same elements as a multiset
/// plus `r`, every element either `r` or from `s`, and sortedness preserved.
pub proof fn lemma_insert_stable_props(s: Seq<MatchResultV>, r: MatchResultV)
    ensures
        insert_stable(s, r).len() == s.len() + 1,
        insert_stable(s, r).to_multiset() == s.to_multiset().insert(r),
        forall|i: int|
            0 <= i < insert_stable(s, r).len() ==> (#[trigger] insert_stable(s, r)[i] == r
                || s.contains(insert_stable(s, r)[i])),
        sorted_by_key(s) ==> sorted_by_key(insert_stable(s, r)),
    decreases s.len(),
{
    broadcast use vstd::seq_lib::group_seq_properties;

    let t = insert_stable(s, r);
    if s.len() == 0 {
        assert(t =~= seq![r]);
        assert(t.to_multiset() =~= s.to_multiset().insert(r)) by {
            s.to_multiset_ensures();
            t.to_multiset_ensures();
            assert(t == s.push(r));
        }
    } else if key_le(s.last(), r) {
        s.to_multiset_ensures();
        assert(sorted_by_key(s) ==> sorted_by_key(t)) by {
            if sorted_by_key(s) {
                assert forall|i: int, j: int| 0 <= i <= j < t.len() implies key_le(t[i], t[j]) by {
                    if j == t.len() - 1 && i < j {
                        assert(key_le(s[i], s.last()));
                    }
                }
            }
        }
    } else {
        let dl = s.drop_last();
        lemma_insert_stable_props(dl, r);
        let u = insert_stable(dl, r);
        // multiset: t = u.push(s.last())
        u.to_multiset_ensures();
        dl.to_multiset_ensures();
        assert(s =~= dl.push(s.last()));
        assert(s.to_multiset() == dl.to_multiset().insert(s.last()));
        assert(t.to_multiset() =~= s.to_multiset().insert(r)) by {
            assert(t.to_multiset() == dl.to_multiset().insert(r).insert(s.last()));
            assert(dl.to_multiset().insert(r).insert(s.last()) =~= dl.to_multiset().insert(
                s.last(),
            ).insert(r));
        }
        assert forall|i: int| 0 <= i < t.len() implies (#[trigger] t[i] == r || s.contains(t[i]))
            by {
            if i < t.len() - 1 {
                assert(t[i] == u[i]);
                if u[i] != r {
                    let k = choose|k: int| 0 <= k < dl.len() && dl[k] == u[i];
                    assert(s[k] == u[i]);
                }
            } else {
                assert(t[i] == s.last());
                assert(s[s.len() - 1] == s.last());
            }
        }
        if sorted_by_key(s) {
            assert(sorted_by_key(dl)) by {
                assert forall|i: int, j: int| 0 <= i <= j < dl.len() implies key_le(
                    dl[i],
                    dl[j],
                ) by {
                    assert(dl[i] == s[i] && dl[j] == s[j]);
                }
            }
            assert(key_le(r, s.last()));
            assert forall|i: int, j: int| 0 <= i <= j < t.len() implies key_le(t[i], t[j]) by {
                if j == t.len() - 1 {
                    if i < j {
                        assert(t[i] == u[i]);
                        if u[i] == r {
                        } else {
                            let k = choose|k: int| 0 <= k < dl.len() && dl[k] == u[i];
                            assert(key_le(s[k], s.last()));
                        }
                    }
                } else {
                    assert(t[i] == u[i] && t[j] == u[j]);
                }
            }
        }
    }
}

/// Where the stable insertion lands: given the boundary position `j` (every
/// element from `j` on has a strictly greater key, and the element before
/// `j`, if any, does not), the insertion splits the list at `j`.
pub proof fn lemma_insert_stable_at(s: Seq<MatchResultV>, r: MatchResultV, j: int)
    requires
        0 <= j <= s.len(),
        forall|t: int| j <= t < s.len() ==> !key_le(#[trigger] s[t], r),
        j > 0 ==> key_le(s[j - 1], r),
    ensures
        insert_stable(s, r) == s.subrange(0, j) + seq![r] + s.subrange(j, s.len() as int),
    decreases s.len(),
{
    if s.len() == 0 {
        assert(insert_stable(s, r) =~= s.subrange(0, j) + seq![r] + s.subrange(j, 0));
    } else if key_le(s.last(), r) {
        assert(j == s.len());
        assert(insert_stable(s, r) =~= s.subrange(0, j) + seq![r] + s.subrange(
            j,
            s.len() as int,
        ));
    } else {
        let dl = s.drop_last();
        assert(j < s.len());
        assert forall|t: int| j <= t < dl.len() implies !key_le(#[trigger] dl[t], r) by {
            assert(dl[t] == s[t]);
        }
        lemma_insert_stable_at(dl, r, j);
        assert(insert_stable(s, r) =~= s.subrange(0, j) + seq![r] + s.subrange(
            j,
            s.len() as int,
        ));
    }
}

/// A stretch of non-matching candidates adds nothing to the raw result list.
pub proof fn lemma_raw_take_none_range(items: Seq<Seq<char>>, q: Seq<char>, a: int, b: int)
    requires
        0 <= a <= b <= items.len(),
        forall|j: int| a <= j < b ==> match_of(#[trigger] items[j], q) is None,
    ensures
        raw_results(items.take(b), q) == raw_results(items.take(a), q),
    decreases b - a,
{
    broadcast use vstd::seq_lib::group_seq_properties;

    let f = |item: Seq<char>| match_of(item, q);
    if a == b {
    } else {
        lemma_raw_take_none_range(items, q, a, b - 1);
        items.lemma_filter_map_take_succ(f, b - 1);
        assert(raw_results(items.take(b), q) =~= raw_results(items.take(b - 1), q));
    }
}

/// One more matching candidate appends exactly its classification to the
/// raw result list.
pub proof fn lemma_raw_take_succ(items: Seq<Seq<char>>, q: Seq<char>, i: int)
    requires
        0 <= i < items.len(),
    ensures
        raw_results(items.take(i + 1), q) == raw_results(items.take(i), q) + (match match_of(
            items[i],
            q,
        ) {
            Some(r) => seq![r],
            None => Seq::<MatchResultV>::empty(),
        }),
{
    let f = |item: Seq<char>| match_of(item, q);
    items.lemma_filter_map_take_succ(f, i);
}

/// The stable sort keeps the length and the multiset of elements, sorts by
/// key, and invents no element.
pub proof fn lemma_stable_sort_props(s: Seq<MatchResultV>)
    ensures
        stable_sort(s).len() == s.len(),
        stable_sort(s).to_multiset() == s.to_multiset(),
        sorted_by_key(stable_sort(s)),
        forall|i: int|
            0 <= i < stable_sort(s).len() ==> s.contains(#[trigger] stable_sort(s)[i]),
    decreases s.len(),
{
    broadcast use vstd::seq_lib::group_seq_properties;

    if s.len() == 0 {
        assert(s.to_multiset() =~= stable_sort(s).to_multiset()) by {
            s.to_multiset_ensures();
        }
    } else {
        let dl = s.drop_last();
        lemma_stable_sort_props(dl);
        let u = stable_sort(dl);
        lemma_insert_stable_props(u, s.last());
        let t = stable_sort(s);
        dl.to_multiset_ensures();
        assert(s =~= dl.push(s.last()));
        assert(t.to_multiset() =~= s.to_multiset()) by {
            assert(t.to_multiset() == u.to_multiset().insert(s.last()));
            assert(s.to_multiset() == dl.to_multiset().insert(s.last()));
        }
        assert forall|i: int| 0 <= i < t.len() implies s.contains(#[trigger] t[i]) by {
            if t[i] == s.last() {
                assert(s[s.len() - 1] == s.last());
            } else {
                assert(u.contains(t[i]));
                let k = choose|k: int| 0 <= k < u.len() && u[k] == t[i];
                assert(dl.contains(u[k]));
                let m = choose|m: int| 0 <= m < dl.len() && dl[m] == u[k];
                assert(s[m] == t[i]);
            }
        }
    }
}

/// Tiers and scores never decrease along a ranked result list.
/// With a non-empty query the ranking is the stable sort of the matching
/// candidates, so any two results stand in `key_le` order; with an empty
/// query every result carries the same tier and no score.
pub proof fn lemma_rank_ordered(items: Seq<Seq<char>>, q: Seq<char>)
    ensures
        sorted_by_key(rank_spec(items, q)),
{
    if q.len() == 0 {
    } else {
        lemma_stable_sort_props(raw_results(items, q));
    }
}

/// What each tier genuinely means for one result: its kind's defining
/// predicate holds of its candidate, and its hits are real positions in
/// the candidate — for a fuzzy match, one strictly increasing hit per
/// query character, each carrying that character.
pub open spec fn result_genuine(r: MatchResultV, q: Seq<char>) -> bool {
    match r.kind {
        MatchKind::Exact => r.item == q,
        MatchKind::Prefix => q.is_prefix_of(r.item) && r.item != q,
        MatchKind::Substring => contains_seq(r.item, q) && !q.is_prefix_of(r.item) && r.item != q,
        MatchKind::Fuzzy => subseq_from(r.item, q, 0) && !contains_seq(r.item, q)
            && !q.is_prefix_of(r.item) && r.item != q && r.hits.len() == q.len() && (forall|k: int|
            0 <= k < r.hits.len() ==> 0 <= #[trigger] r.hits[k] < r.item.len()
                && r.item[r.hits[k]] == q[k]) && (forall|k: int|
            0 < k < r.hits.len() ==> r.hits[k - 1] < #[trigger] r.hits[k]),
        MatchKind::Unfiltered => false,
    }
}

/// No false positives: with a non-empty query, every ranked result comes
/// from a candidate and is exactly that candidate's classification, so each
/// result genuinely is an exact, prefix, substring or fuzzy match of the
/// query, and unfiltered results never appear.
pub proof fn lemma_rank_sound(items: Seq<Seq<char>>, q: Seq<char>)
    requires
        q.len() > 0,
    ensures
        forall|n: int|
            0 <= n < rank_spec(items, q).len() ==> {
                let r = #[trigger] rank_spec(items, q)[n];
                items.contains(r.item) && match_of(r.item, q) == Some(r) && result_genuine(r, q)
            },
{
    let raw = raw_results(items, q);
    lemma_stable_sort_props(raw);
    let f = |item: Seq<char>| match_of(item, q);
    assert forall|n: int| 0 <= n < rank_spec(items, q).len() implies {
        let r = #[trigger] rank_spec(items, q)[n];
        items.contains(r.item) && match_of(r.item, q) == Some(r) && result_genuine(r, q)
    } by {
        let r = rank_spec(items, q)[n];
        assert(raw.contains(r));
        items.lemma_filter_map_contains(f, r);
        let t = choose|t: Seq<char>| #[trigger] items.contains(t) && f(t) == Some(r);
        assert(r.item == t);
        lemma_match_kind_facts(t, q);
    }
}

/// The classification facts behind each tier of `match_of`.
proof fn lemma_match_kind_facts(item: Seq<char>, q: Seq<char>)
    requires
        q.len() > 0,
        match_of(item, q) is Some,
    ensures
        ({
            let r = match_of(item, q)->Some_0;
            r.item == item && result_genuine(r, q)
        }),
{
    if item == q {
    } else if q.is_prefix_of(item) {
    } else {
        lemma_match_pos_from(item, q, 0);
        match match_pos_from(item, q, 0) {
            Some(d) => {},
            None => {
                assert(!contains_seq(item, q)) by {
                    if contains_seq(item, q) {
                        let i = choose|i: int| occurs_at(item, q, i);
                        assert(!occurs_at(item, q, i));
                    }
                }
                lemma_greedy_subseq(item, q, 0);
                lemma_greedy_hits_sound(item, q, 0);
            },
        }
    }
}

/// Two results rank equally: neither's (tier, score) key is below the
/// other's.
pub open spec fn same_key(a: MatchResultV, b: MatchResultV) -> bool {
    key_le(a, b) && key_le(b, a)
}

/// Inserting stably touches one key class only: the new element lands at
/// the end of its own class, and every other class is untouched.
proof fn lemma_insert_stable_filter(s: Seq<MatchResultV>, r: MatchResultV, r0: MatchResultV)
    requires
        sorted_by_key(s),
    ensures
        same_key(r, r0) ==> insert_stable(s, r).filter(|x: MatchResultV| same_key(x, r0))
            == s.filter(|x: MatchResultV| same_key(x, r0)).push(r),
        !same_key(r, r0) ==> insert_stable(s, r).filter(|x: MatchResultV| same_key(x, r0))
            == s.filter(|x: MatchResultV| same_key(x, r0)),
    decreases s.len(),
{
    reveal(Seq::filter);
    let pred = |x: MatchResultV| same_key(x, r0);
    if s.len() == 0 {
        assert(seq![r].drop_last() =~= Seq::<MatchResultV>::empty());
        assert(seq![r].last() == r);
        assert(s.filter(pred) =~= Seq::<MatchResultV>::empty());
    } else if key_le(s.last(), r) {
        assert(s.push(r).drop_last() =~= s);
        assert(s.push(r).last() == r);
    } else {
        let dl = s.drop_last();
        assert(sorted_by_key(dl)) by {
            assert forall|i: int, j: int| 0 <= i <= j < dl.len() implies key_le(dl[i], dl[j]) by {
                assert(dl[i] == s[i] && dl[j] == s[j]);
            }
        }
        lemma_insert_stable_filter(dl, r, r0);
        let u = insert_stable(dl, r);
        assert(u.push(s.last()).drop_last() =~= u);
        assert(u.push(s.last()).last() == s.last());
        assert(s.filter(pred) == if pred(s.last()) {
            dl.filter(pred).push(s.last())
        } else {
            dl.filter(pred)
        });
        if same_key(r, r0) {
            // The last element's key is strictly above r's, so it is in no
            // class with r0 and drops out of the filter.
            assert(!pred(s.last()));
        }
    }
}

/// Stability: sorting stably never reorders a key class — each class of
/// the sorted list reads exactly as it does in the unsorted list.
proof fn lemma_stable_sort_filter(s: Seq<MatchResultV>, r0: MatchResultV)
    ensures
        stable_sort(s).filter(|x: MatchResultV| same_key(x, r0)) == s.filter(
            |x: MatchResultV| same_key(x, r0),
        ),
    decreases s.len(),
{
    reveal(Seq::filter);
    let pred = |x: MatchResultV| same_key(x, r0);
    if s.len() == 0 {
    } else {
        let dl = s.drop_last();
        lemma_stable_sort_filter(dl, r0);
        lemma_stable_sort_props(dl);
        lemma_insert_stable_filter(stable_sort(dl), s.last(), r0);
        assert(s.filter(pred) == if pred(s.last()) {
            dl.filter(pred).push(s.last())
        } else {
            dl.filter(pred)
        });
    }
}

/// Ties are stable: among results of equal (tier, score), the ranking
/// preserves the original candidate order — the results of any one key
/// class read exactly as they do in the unsorted, candidate-ordered raw
/// result list.
pub proof fn lemma_rank_stable(items: Seq<Seq<char>>, q: Seq<char>, r0: MatchResultV)
    requires
        q.len() > 0,
    ensures
        rank_spec(items, q).filter(|x: MatchResultV| same_key(x, r0)) == raw_results(
            items,
            q,
        ).filter(|x: MatchResultV| same_key(x, r0)),
{
    lemma_stable_sort_filter(raw_results(items, q), r0);
}

/// Incremental re-scan equivalence: restricting the candidate list to the
/// survivors of a query `q1` and ranking an extension `q2` of it gives
/// exactly the ranking of `q2` over the full candidate list.  The cached
/// path of the matcher is a pure performance path, never an approximation.
pub proof fn lemma_rank_incremental(items: Seq<Seq<char>>, q1: Seq<char>, q2: Seq<char>)
    requires
        q1.is_prefix_of(q2),
    ensures
        rank_spec(items.filter(|item: Seq<char>| match_of(item, q1) is Some), q2) == rank_spec(
            items,
            q2,
        ),
    decreases items.len(),
{
    let p1 = |item: Seq<char>| match_of(item, q1) is Some;
    let g = |item: Seq<char>| match_of(item, q2);
    reveal(Seq::filter);
    if items.len() == 0 {
        assert(items.filter(p1) =~= items);
    } else {
        let dl = items.drop_last();
        let last = items.last();
        lemma_rank_incremental(dl, q1, q2);
        if q2.len() == 0 {
            // Then q1 is empty too and every candidate survives it.
            assert(q1.len() == 0);
            lemma_empty_query_matches_all(items);
            assert(items.filter(p1) =~= items) by {
                lemma_filter_all_true(items, p1);
            }
        } else {
            // The filtered and unfiltered candidate lists classify to the
            // same raw result list under q2.
            lemma_filtered_raw_equal(items, q1, q2);
            assert(rank_spec(items.filter(p1), q2) == rank_spec(items, q2));
        }
    }
}

/// Every candidate matches the empty query (as an exact or prefix match).
proof fn lemma_empty_query_matches_all(items: Seq<Seq<char>>)
    ensures
        forall|i: int|
            0 <= i < items.len() ==> match_of(#[trigger] items[i], Seq::<char>::empty()) is Some,
{
    assert forall|i: int|
        0 <= i < items.len() implies match_of(#[trigger] items[i], Seq::<char>::empty()) is Some by {
        let item = items[i];
        let q = Seq::<char>::empty();
        if item == q {
        } else {
            assert(q.is_prefix_of(item)) by {
                assert(item.subrange(0, 0) =~= q);
            }
        }
    }
}

/// A filter whose predicate holds of every element is the identity.
proof fn lemma_filter_all_true(items: Seq<Seq<char>>, p: spec_fn(Seq<char>) -> bool)
    requires
        forall|i: int| 0 <= i < items.len() ==> p(#[trigger] items[i]),
    ensures
        items.filter(p) == items,
    decreases items.len(),
{
    reveal(Seq::filter);
    if items.len() == 0 {
        assert(items.filter(p) =~= items);
    } else {
        let dl = items.drop_last();
        lemma_filter_all_true(dl, p);
        assert(p(items.last()));
        assert(items.filter(p) =~= items);
    }
}

/// Dropping the candidates excluded by `q1` does not change the raw result
/// list of any extension `q2`: the dropped candidates classify to nothing.
proof fn lemma_filtered_raw_equal(items: Seq<Seq<char>>, q1: Seq<char>, q2: Seq<char>)
    requires
        q1.is_prefix_of(q2),
    ensures
        raw_results(items.filter(|item: Seq<char>| match_of(item, q1) is Some), q2) == raw_results(
            items,
            q2,
        ),
    decreases items.len(),
{
    let p1 = |item: Seq<char>| match_of(item, q1) is Some;
    let g = |item: Seq<char>| match_of(item, q2);
    reveal(Seq::filter);
    if items.len() == 0 {
        assert(items.filter(p1) =~= items);
    } else {
        let dl = items.drop_last();
        let last = items.last();
        lemma_filtered_raw_equal(dl, q1, q2);
        if p1(last) {
            assert(items.filter(p1) == dl.filter(p1).push(last));
            assert(items.filter(p1).drop_last() =~= dl.filter(p1));
            assert(items.filter(p1).last() == last);
            assert(raw_results(items.filter(p1), q2) =~= raw_results(items, q2));
        } else {
            lemma_extension_excludes(last, q1, q2);
            assert(g(last) is None);
            assert(items.filter(p1) == dl.filter(p1));
            assert(raw_results(items, q2) =~= raw_results(dl, q2));
        }
    }
}

} // verus!
