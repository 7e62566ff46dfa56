//! The executable fuzzy matcher.
//!
//! [`Matcher`] owns the candidate list for one selection session and ranks
//! it against each query the user types.  Results are proved equal to
//! [`crate::ranking::rank_spec`]; the incremental cache changes only how the
//! answer is computed, never what it is.

use vstd::prelude::*;

use crate::ranking::{
    find_from, fuzzy_score, greedy_hits, idx_range, insert_stable, key_le, kind_tier,
    lemma_extension_excludes, lemma_insert_stable_at, lemma_raw_take_none_range,
    lemma_raw_take_succ, match_of, match_pos_from, rank_spec, raw_results, score_from, score_le,
    sorted_by_key, stable_sort, unfiltered_of, MatchKind, MatchResultV,
};
use crate::strutil::chars_of;

verus! {

/// One ranked result: the candidate text, the tier it matched in, the score
/// within that tier (absent for exact, prefix and unfiltered matches) and
/// the character offsets that matched.
#[derive(Debug)]
pub struct MatchResult {
    pub item: String,
    pub kind: MatchKind,
    pub score: Option<usize>,
    pub hits: Vec<usize>,
}

impl View for MatchResult {
    type V = MatchResultV;

    open spec fn view(&self) -> MatchResultV {
        MatchResultV {
            item: self.item@,
            kind: self.kind,
            score: match self.score {
                Some(s) => Some(s as int),
                None => None,
            },
            hits: self.hits@.map_values(|h: usize| h as int),
        }
    }
}

impl DeepView for MatchResult {
    type V = MatchResultV;

    open spec fn deep_view(&self) -> MatchResultV {
        self.view()
    }
}

/// The numeric tier of a kind; lower ranks stronger.
fn tier(k: MatchKind) -> (t: u8)
    ensures
        t as int == kind_tier(k),
{
    match k {
        MatchKind::Exact => 0,
        MatchKind::Prefix => 1,
        MatchKind::Substring => 2,
        MatchKind::Fuzzy => 3,
        MatchKind::Unfiltered => 4,
    }
}

/// Compares two results by (tier, score), scores absent-first.
fn key_le_exec(a: &MatchResult, b: &MatchResult) -> (r: bool)
    ensures
        r == key_le(a@, b@),
{
    let ta = tier(a.kind);
    let tb = tier(b.kind);
    if ta < tb {
        true
    } else if ta > tb {
        false
    } else {
        match (&a.score, &b.score) {
            (None, _) => true,
            (Some(_), None) => false,
            (Some(x), Some(y)) => *x <= *y,
        }
    }
}

/// The hit offsets `start`, ..., `start + len - 1` as a vector.
fn range_hits(start: usize, len: usize) -> (v: Vec<usize>)
    requires
        start + len <= usize::MAX,
    ensures
        v@.map_values(|h: usize| h as int) == idx_range(start as int, len as nat),
{
    let mut v: Vec<usize> = Vec::new();
    let mut k: usize = 0;
    while k < len
        invariant
            k <= len,
            start + len <= usize::MAX,
            v@.len() == k,
            forall|j: int| 0 <= j < k ==> v@[j] == start + j,
        decreases len - k,
    {
        v.push(start + k);
        k += 1;
    }
    proof {
        assert(v@.map_values(|h: usize| h as int) =~= idx_range(start as int, len as nat));
    }
    v
}

/// Whether `qv` occurs in `iv` contiguously at offset `i`.
pub(crate) fn occurs_here(iv: &Vec<char>, qv: &Vec<char>, i: usize) -> (r: bool)
    requires
        i + qv@.len() <= iv@.len(),
    ensures
        r == (iv@.subrange(i as int, i + qv@.len() as int) == qv@),
{
    let n = iv.len();
    let mut k: usize = 0;
    while k < qv.len()
        invariant
            k <= qv@.len(),
            n == iv@.len(),
            i + qv@.len() <= iv@.len(),
            forall|j: int| 0 <= j < k ==> iv@[i + j] == qv@[j],
        decreases qv@.len() - k,
    {
        if iv[i + k] != qv[k] {
            assert(iv@.subrange(i as int, i + qv@.len() as int)[k as int] == iv@[i + k]);
            return false;
        }
        k += 1;
    }
    proof {
        assert(iv@.subrange(i as int, i + qv@.len() as int) =~= qv@);
    }
    true
}

/// The tiered fuzzy matcher: a fixed candidate list and the cache of the
/// previous query's surviving candidate indices.
#[derive(Debug)]
pub struct Matcher {
    pub items: Vec<String>,
    cache: Option<(String, Vec<usize>)>,
}

impl Matcher {
    /// The cache, when present, holds a non-empty previous query together
    /// with exactly the indices of the candidates it matched, in ascending
    /// order.
    pub closed spec fn wf(&self) -> bool {
        match self.cache {
            None => true,
            Some((prev, idxs)) => prev@.len() > 0 && survivors_exact(
                self.items.deep_view(),
                prev@,
                idxs@,
            ),
        }
    }

    /// The candidate list, as a sequence of character sequences.
    pub closed spec fn spec_items(&self) -> Seq<Seq<char>> {
        self.items.deep_view()
    }

    /// A fresh matcher over the given candidates, with an empty cache.
    pub fn new(items: Vec<String>) -> (m: Matcher)
        ensures
            m.spec_items() == items.deep_view(),
            m.wf(),
    {
        Matcher { items, cache: None }
    }

    /// Classifies one candidate against the query: its tier, score and hit
    /// offsets when it matches, and `None` when it matches in no tier.
    #[verifier::loop_isolation(false)]
    pub fn match_item(&self, item: &str, input: &str) -> (res: Option<MatchResult>)
        requires
            input@.len() * 5 <= usize::MAX,
        ensures
            match res {
                Some(r) => match_of(item@, input@) == Some(r@) && r@.item == item@,
                None => match_of(item@, input@) is None,
            },
    {
        let iv = chars_of(item);
        let qv = chars_of(input);
        let n = iv.len();
        let m = qv.len();
        if crate::strutil::chars_equal(&iv, &qv) {
            Some(
                MatchResult {
                    item: item.to_owned(),
                    kind: MatchKind::Exact,
                    score: None,
                    hits: range_hits(0, m),
                },
            )
        } else if crate::strutil::chars_start_with(&iv, &qv) {
            Some(
                MatchResult {
                    item: item.to_owned(),
                    kind: MatchKind::Prefix,
                    score: None,
                    hits: range_hits(0, m),
                },
            )
        } else {
            // Substring: the leftmost contiguous occurrence, if any.
            let mut i: usize = 0;
            if m <= n {
                while i <= n - m
                    invariant
                        i <= n - m + 1,
                        m <= n,
                        n == iv@.len(),
                        m == qv@.len(),
                        iv@ == item@,
                        qv@ == input@,
                        match_pos_from(item@, input@, 0) == match_pos_from(
                            item@,
                            input@,
                            i as int,
                        ),
                    decreases n - i,
                {
                    if occurs_here(&iv, &qv, i) {
                        assert(match_pos_from(item@, input@, i as int) == Some(i as int));
                        let r = MatchResult {
                            item: item.to_owned(),
                            kind: MatchKind::Substring,
                            score: Some(i),
                            hits: range_hits(i, m),
                        };
                        proof {
                            let expect = MatchResultV {
                                item: item@,
                                kind: MatchKind::Substring,
                                score: Some(i as int),
                                hits: idx_range(i as int, input@.len()),
                            };
                            assert(match_of(item@, input@) == Some(expect));
                            assert(r@.item == expect.item);
                            assert(r@.kind == expect.kind);
                            assert(r@.score == expect.score);
                            assert(r@.hits == expect.hits);
                            assert(r@ == expect);
                        }
                        return Some(r);
                    }
                    proof {
                        assert(match_pos_from(item@, input@, i as int) == match_pos_from(
                            item@,
                            input@,
                            i + 1,
                        ));
                    }
                    i += 1;
                }
            }
            assert(match_pos_from(item@, input@, 0) is None);
            self.fuzzy_scan_item(item, input, &iv, &qv)
        }
    }

    /// The greedy fuzzy scan of one candidate: finds each query character in
    /// turn at or after the scan cursor, scoring 5 for a hit adjacent to the
    /// previous one and 3 otherwise.
    #[verifier::loop_isolation(false)]
    fn fuzzy_scan_item(&self, item: &str, input: &str, iv: &Vec<char>, qv: &Vec<char>) -> (res:
        Option<MatchResult>)
        requires
            input@.len() * 5 <= usize::MAX,
            iv@ == item@,
            qv@ == input@,
            item@ != input@,
            !input@.is_prefix_of(item@),
            match_pos_from(item@, input@, 0) is None,
        ensures
            match res {
                Some(r) => match_of(item@, input@) == Some(r@) && r@.item == item@,
                None => match_of(item@, input@) is None,
            },
    {
        let ghost item_s = item@;
        let ghost q_s = input@;
        let n = iv.len();
        let m = qv.len();
        let mut hits: Vec<usize> = Vec::new();
        let mut score: usize = 0;
        let mut cursor: usize = 0;
        let mut k: usize = 0;
        proof {
            assert(q_s.subrange(0, m as int) =~= q_s);
            assert(hits@.map_values(|h: usize| h as int) =~= Seq::<int>::empty());
            match greedy_hits(item_s, q_s, 0) {
                Some(rest) => {
                    assert(Seq::<int>::empty() + rest =~= rest);
                },
                None => {},
            }
        }
        while k < m
            invariant
                k <= m,
                n == item_s.len(),
                m == q_s.len(),
                iv@ == item_s,
                qv@ == q_s,
                q_s.len() * 5 <= usize::MAX,
                cursor <= n,
                hits@.len() == k,
                k > 0 ==> cursor == hits@.last() + 1,
                k == 0 ==> cursor == 0,
                forall|t: int| 0 <= t < k ==> #[trigger] hits@[t] < n,
                score <= 5 * k,
                score as int == fuzzy_score(hits@.map_values(|h: usize| h as int)),
                match greedy_hits(item_s, q_s.subrange(k as int, m as int), cursor as int) {
                    Some(rest) => greedy_hits(item_s, q_s, 0) == Some(
                        hits@.map_values(|h: usize| h as int) + rest,
                    ),
                    None => greedy_hits(item_s, q_s, 0) is None,
                },
            decreases m - k,
        {
            let qc = qv[k];
            let ghost sub_k = q_s.subrange(k as int, m as int);
            proof {
                assert(sub_k[0] == q_s[k as int]);
            }
            // Find the next occurrence of qc at or after the cursor.
            let mut j = cursor;
            let mut found = false;
            while !found && j < n
                invariant
                    cursor <= j <= n,
                    n == item_s.len(),
                    iv@ == item_s,
                    qc == q_s[k as int],
                    k < m,
                    find_from(item_s, qc, cursor as int) == find_from(item_s, qc, j as int),
                    found ==> j < n && item_s[j as int] == qc,
                decreases n - j + (if found { 0int } else { 1int }),
            {
                if iv[j] == qc {
                    found = true;
                } else {
                    proof {
                        assert(find_from(item_s, qc, j as int) == find_from(item_s, qc, j + 1));
                    }
                    j += 1;
                }
            }
            if !found {
                // qc does not occur at or after the cursor: no fuzzy match.
                proof {
                    assert(j == n);
                    assert(find_from(item_s, qc, j as int) is None);
                    assert(sub_k[0] == qc);
                    assert(greedy_hits(item_s, sub_k, cursor as int) is None);
                    assert(greedy_hits(item_s, q_s, 0) is None);
                    assert(match_of(item@, input@) is None);
                }
                return None;
            }
            assert(item_s[j as int] == qc);
            proof {
                assert(find_from(item_s, qc, j as int) == Some(j as int));
            }
            // Score the hit: adjacent hits cost 5, detached hits cost 3.
            let ghost old_hits = hits@.map_values(|h: usize| h as int);
            let adjacent = hits.len() > 0 && j == cursor;
            if adjacent {
                score += 5;
            } else {
                score += 3;
            }
            hits.push(j);
            proof {
                let new_hits = hits@.map_values(|h: usize| h as int);
                assert(new_hits =~= old_hits.push(j as int));
                lemma_score_push(old_hits, -2, j as int);
                if k > 0 {
                    assert(old_hits.last() == hits@[k - 1]);
                }
                // Step the greedy scan by one query character.
                let sub_k1 = q_s.subrange(k + 1, m as int);
                assert(sub_k.drop_first() =~= sub_k1);
                assert(greedy_hits(item_s, sub_k, cursor as int) == (match greedy_hits(
                    item_s,
                    sub_k1,
                    j + 1,
                ) {
                    Some(rest) => Some(seq![j as int] + rest),
                    None => None::<Seq<int>>,
                }));
                match greedy_hits(item_s, sub_k1, j + 1) {
                    Some(rest) => {
                        assert(old_hits + (seq![j as int] + rest) =~= new_hits + rest);
                    },
                    None => {},
                }
            }
            cursor = j + 1;
            k += 1;
        }
        proof {
            let hits_int = hits@.map_values(|h: usize| h as int);
            assert(q_s.subrange(m as int, m as int) =~= Seq::<char>::empty());
            assert(greedy_hits(item_s, q_s.subrange(m as int, m as int), cursor as int) == Some(
                Seq::<int>::empty(),
            ));
            assert(hits_int + Seq::<int>::empty() =~= hits_int);
            assert(greedy_hits(item_s, q_s, 0) == Some(hits_int));
        }
        Some(
            MatchResult {
                item: item.to_owned(),
                kind: MatchKind::Fuzzy,
                score: Some(score),
                hits,
            },
        )
    }
}

impl Matcher {
    /// Every candidate tagged unfiltered, in original order: the ranking of
    /// the empty query.
    fn unfiltered_all(&self) -> (out: Vec<MatchResult>)
        ensures
            out.deep_view() == self.items.deep_view().map_values(
                |it: Seq<char>| unfiltered_of(it),
            ),
    {
        let ghost items_v = self.items.deep_view();
        let mut out: Vec<MatchResult> = Vec::new();
        let mut i: usize = 0;
        while i < self.items.len()
            invariant
                i <= self.items@.len(),
                items_v == self.items.deep_view(),
                out@.len() == i,
                forall|t: int|
                    0 <= t < i ==> #[trigger] out.deep_view()[t] == unfiltered_of(items_v[t]),
            decreases self.items@.len() - i,
        {
            let s = self.items[i].clone();
            let ghost out_deep_before = out.deep_view();
            let ghost outv_before = out@;
            out.push(
                MatchResult { item: s, kind: MatchKind::Unfiltered, score: None, hits: Vec::new() },
            );
            proof {
                assert(out.deep_view()[i as int].hits =~= Seq::<int>::empty());
                assert(out.deep_view()[i as int] == unfiltered_of(items_v[i as int]));
                assert forall|t: int| 0 <= t < i implies #[trigger] out.deep_view()[t]
                    == unfiltered_of(items_v[t]) by {
                    assert(out@[t] == outv_before[t]);
                    assert(out.deep_view()[t] == out_deep_before[t]);
                }
            }
            i += 1;
        }
        proof {
            assert(out.deep_view() =~= items_v.map_values(|it: Seq<char>| unfiltered_of(it)));
        }
        out
    }

    /// Scans the candidates listed in `search` in order, returning the
    /// indices that match the query and their classifications, in candidate
    /// order.  Since `search` covers every candidate the query can match,
    /// the classifications are the full raw result list.
    #[verifier::loop_isolation(false)]
    #[verifier::rlimit(60)]
    fn scan(&self, search: Vec<usize>, input: &str) -> (r: (Vec<usize>, Vec<MatchResult>))
        requires
            search_ok(self.items.deep_view(), input@, search@),
            input@.len() * 5 <= usize::MAX,
        ensures
            r.1.deep_view() == raw_results(self.items.deep_view(), input@),
            survivors_exact(self.items.deep_view(), input@, r.0@),
    {
        let ghost items_v = self.items.deep_view();
        let ghost q_v = input@;
        let total = self.items.len();
        let mut matched: Vec<usize> = Vec::new();
        let mut collected: Vec<MatchResult> = Vec::new();
        let ghost mut bound: int = 0;
        let mut k: usize = 0;
        proof {
            assert(items_v.take(0) =~= Seq::<Seq<char>>::empty());
            assert(collected.deep_view() =~= raw_results(items_v.take(0), q_v));
        }
        while k < search.len()
            invariant
                k <= search@.len(),
                0 <= bound <= items_v.len(),
                k > 0 ==> bound == search@[k - 1] + 1,
                k == 0 ==> bound == 0,
                forall|t: int| k <= t < search@.len() ==> bound <= #[trigger] search@[t],
                collected.deep_view() == raw_results(items_v.take(bound), q_v),
                forall|t: int|
                    0 <= t < matched@.len() ==> #[trigger] matched@[t] < bound && match_of(
                        items_v[matched@[t] as int],
                        q_v,
                    ) is Some,
                forall|t: int, l: int| 0 <= t < l < matched@.len() ==> matched@[t] < matched@[l],
                forall|i2: int|
                    0 <= i2 < bound && match_of(#[trigger] items_v[i2], q_v) is Some
                        ==> matched@.contains(i2 as usize),
            decreases search@.len() - k,
        {
            let i = search[k];
            proof {
                assert forall|j: int| bound <= j < i implies match_of(
                    #[trigger] items_v[j],
                    q_v,
                ) is None by {
                    if match_of(items_v[j], q_v) is Some {
                        assert(search@.contains(j as usize));
                        let t = choose|t: int| 0 <= t < search@.len() && search@[t] == j as usize;
                        if t > k {
                            assert(search@[k as int] < search@[t]);
                        } else if t < k {
                            assert(search@[t] <= search@[k - 1]);
                        }
                        assert(false);
                    }
                }
                lemma_raw_take_none_range(items_v, q_v, bound, i as int);
                bound = i as int;
            }
            let r = self.match_item(self.items[i].as_str(), input);
            proof {
                assert(self.items@[i as int]@ == items_v[i as int]);
            }
            match r {
                Some(mr) => {
                    proof {
                        lemma_raw_take_succ(items_v, q_v, i as int);
                    }
                    let ghost collected_deep = collected.deep_view();
                    let ghost matched_before = matched@;
                    matched.push(i);
                    collected.push(mr);
                    proof {
                        assert(collected.deep_view() =~= collected_deep + seq![mr@]);
                        assert(collected.deep_view() == raw_results(items_v.take(i + 1), q_v));
                        bound = i + 1;
                        assert(matched@.last() == i);
                        assert forall|i2: int|
                            0 <= i2 < bound && match_of(#[trigger] items_v[i2], q_v) is Some
                            implies matched@.contains(i2 as usize) by {
                            if i2 < i {
                                assert(matched_before.contains(i2 as usize));
                                let t = choose|t: int|
                                    0 <= t < matched_before.len() && matched_before[t]
                                        == i2 as usize;
                                assert(matched@[t] == i2 as usize);
                            } else {
                                assert(matched@[matched@.len() - 1] == i2 as usize);
                            }
                        }
                    }
                },
                None => {
                    proof {
                        lemma_raw_take_succ(items_v, q_v, i as int);
                        assert(raw_results(items_v.take(i + 1), q_v) =~= raw_results(
                            items_v.take(i as int),
                            q_v,
                        ));
                        bound = i + 1;
                    }
                },
            }
            k += 1;
        }
        proof {
            assert(items_v.len() == total as int);
            assert forall|j: int| bound <= j < items_v.len() implies match_of(
                #[trigger] items_v[j],
                q_v,
            ) is None by {
                if match_of(items_v[j], q_v) is Some {
                    assert(search@.contains(j as usize));
                    let t = choose|t: int| 0 <= t < search@.len() && search@[t] == j as usize;
                    assert(j as usize as int == j);
                    if k > 0 {
                        assert(search@[t] <= search@[k - 1]);
                    }
                    assert(false);
                }
            }
            lemma_raw_take_none_range(items_v, q_v, bound, items_v.len() as int);
            assert(items_v.take(items_v.len() as int) =~= items_v);
            assert(collected.deep_view() == raw_results(items_v, q_v));
        }
        (matched, collected)
    }

    /// Ranks every candidate against the query: exactly the matching
    /// candidates, stably sorted by (tier, score) — or every candidate,
    /// unfiltered and in original order, for an empty query.  The result is
    /// a pure function of the candidate list and the query alone: the cache
    /// only decides how much of the list is re-scanned, never the answer.
    /// Calling this again with the same query therefore returns the same
    /// ranking.
    #[verifier::loop_isolation(false)]
    #[verifier::rlimit(60)]
    pub fn fuzzy_match(&mut self, input: &str) -> (res: Vec<MatchResult>)
        requires
            old(self).wf(),
            input@.len() * 5 <= usize::MAX,
        ensures
            final(self).wf(),
            final(self).spec_items() == old(self).spec_items(),
            res.deep_view() == rank_spec(old(self).spec_items(), input@),
    {
        let ghost items_v = self.items.deep_view();
        let ghost q_v = input@;

        // A cached query that matched nothing excludes everything any
        // extension of it could match: answer without scanning.
        match &self.cache {
            Some((prev, idxs)) => {
                if idxs.len() == 0 && crate::strutil::str_starts_with(input, prev.as_str()) {
                    proof {
                        let prev_v = prev@;
                        assert(q_v.len() >= prev_v.len() > 0);
                        assert forall|i: int|
                            0 <= i < items_v.len() implies match_of(
                            #[trigger] items_v[i],
                            q_v,
                        ) is None by {
                            if match_of(items_v[i], prev_v) is Some {
                                assert(idxs@.contains(i as usize));
                                assert(false);
                            }
                            lemma_extension_excludes(items_v[i], prev_v, q_v);
                        }
                        lemma_raw_take_none_range(items_v, q_v, 0, items_v.len() as int);
                        assert(items_v.take(items_v.len() as int) =~= items_v);
                        assert(items_v.take(0) =~= Seq::<Seq<char>>::empty());
                        assert(raw_results(items_v, q_v) =~= Seq::<MatchResultV>::empty());
                        assert(stable_sort(raw_results(items_v, q_v)) =~= Seq::<
                            MatchResultV,
                        >::empty());
                    }
                    let out: Vec<MatchResult> = Vec::new();
                    proof {
                        assert(out.deep_view() =~= Seq::<MatchResultV>::empty());
                    }
                    return out;
                }
            },
            None => {},
        }

        // Empty query: every candidate, unfiltered, in original order.
        if input.is_empty() {
            self.cache = None;
            return self.unfiltered_all();
        }

        // Which candidates to scan: the cached survivors when the query
        // extends the cached one, otherwise every candidate.
        let mut search: Vec<usize> = Vec::new();
        let mut from_cache = false;
        match &self.cache {
            Some((prev, idxs)) => {
                if crate::strutil::str_starts_with(input, prev.as_str()) {
                    search = copy_indices(idxs);
                    from_cache = true;
                    proof {
                        assert forall|i: int|
                            0 <= i < items_v.len() && match_of(
                                #[trigger] items_v[i],
                                q_v,
                            ) is Some implies search@.contains(i as usize) by {
                            if match_of(items_v[i], prev@) is None {
                                lemma_extension_excludes(items_v[i], prev@, q_v);
                                assert(false);
                            }
                        }
                        assert(search_ok(items_v, q_v, search@));
                    }
                }
            },
            None => {},
        }
        if !from_cache {
            let n = self.items.len();
            let mut i: usize = 0;
            while i < n
                invariant
                    i <= n,
                    n == items_v.len(),
                    search@.len() == i,
                    forall|t: int| 0 <= t < i ==> #[trigger] search@[t] == t,
                decreases n - i,
            {
                search.push(i);
                i += 1;
            }
            proof {
                assert forall|i2: int|
                    0 <= i2 < items_v.len() && match_of(#[trigger] items_v[i2], q_v) is Some
                    implies search@.contains(i2 as usize) by {
                    assert(search@[i2] == i2 as usize);
                }
                assert(search_ok(items_v, q_v, search@));
            }
        }

        let (matched, collected) = self.scan(search, input);
        self.cache = Some((input.to_owned(), matched));
        proof {
            assert(q_v.len() > 0);
        }
        sort_results(collected)
    }
}
/// Exactly the indices of the candidates that `q` matches: in bounds, each
/// one matching, strictly ascending, and none missing.
spec fn survivors_exact(items: Seq<Seq<char>>, q: Seq<char>, idxs: Seq<usize>) -> bool {
    &&& forall|k: int|
        0 <= k < idxs.len() ==> #[trigger] idxs[k] < items.len() && match_of(
            items[idxs[k] as int],
            q,
        ) is Some
    &&& forall|k: int, l: int| 0 <= k < l < idxs.len() ==> idxs[k] < idxs[l]
    &&& forall|i: int|
        0 <= i < items.len() && match_of(#[trigger] items[i], q) is Some ==> idxs.contains(
            i as usize,
        )
}

/// What a candidate-index list must satisfy to drive the scan: indices in
/// bounds, strictly ascending, and covering every candidate the query can
/// match.
spec fn search_ok(items: Seq<Seq<char>>, q: Seq<char>, s: Seq<usize>) -> bool {
    &&& forall|k: int| 0 <= k < s.len() ==> #[trigger] s[k] < items.len()
    &&& forall|k: int, l: int| 0 <= k < l < s.len() ==> s[k] < s[l]
    &&& forall|i: int|
        0 <= i < items.len() && match_of(#[trigger] items[i], q) is Some ==> s.contains(i as usize)
}

/// A plain element-by-element copy of an index list.
fn copy_indices(v: &Vec<usize>) -> (r: Vec<usize>)
    ensures
        r@ == v@,
{
    let mut r: Vec<usize> = Vec::new();
    let mut i: usize = 0;
    while i < v.len()
        invariant
            i <= v@.len(),
            r@ == v@.subrange(0, i as int),
        decreases v@.len() - i,
    {
        r.push(v[i]);
        i += 1;
        proof {
            assert(r@ =~= v@.subrange(0, i as int));
        }
    }
    proof {
        assert(r@ =~= v@);
    }
    r
}

/// Stable insertion sort of a result list by (tier, score): the exact
/// stable-sort order the ranking specification prescribes.
#[verifier::loop_isolation(false)]
fn sort_results(v: Vec<MatchResult>) -> (r: Vec<MatchResult>)
    ensures
        r.deep_view() == stable_sort(v.deep_view()),
{
    let ghost orig = v.deep_view();
    let mut rest = v;
    let mut out: Vec<MatchResult> = Vec::new();
    let ghost mut processed: int = 0;
    proof {
        assert(orig.take(0) =~= Seq::<MatchResultV>::empty());
        assert(rest.deep_view() =~= orig.skip(0));
    }
    while rest.len() > 0
        invariant
            0 <= processed <= orig.len(),
            rest.deep_view() == orig.skip(processed),
            processed + rest@.len() == orig.len(),
            out.deep_view() == stable_sort(orig.take(processed)),
            sorted_by_key(out.deep_view()),
        decreases rest@.len(),
    {
        let ghost outv = out.deep_view();
        let ghost restv_before = rest@;
        let ghost rest_deep_before = rest.deep_view();
        let x = rest.remove(0);
        let ghost xv = x.deep_view();
        proof {
            assert(orig.skip(processed)[0] == orig[processed]);
            assert(xv == orig[processed]);
            assert(rest@ =~= restv_before.subrange(1, restv_before.len() as int));
            assert forall|t: int| 0 <= t < rest.deep_view().len() implies rest.deep_view()[t]
                == orig.skip(processed + 1)[t] by {
                assert(rest@[t] == restv_before[t + 1]);
                assert(rest.deep_view()[t] == rest_deep_before[t + 1]);
                assert(rest_deep_before[t + 1] == orig.skip(processed)[t + 1]);
            }
            assert(rest.deep_view() =~= orig.skip(processed + 1));
        }
        // Scan from the end for the last element with key <= x's key.
        let mut j = out.len();
        let mut stop = false;
        while !stop && j > 0
            invariant
                j <= out@.len(),
                forall|t: int| j <= t < outv.len() ==> !key_le(#[trigger] outv[t], xv),
                stop ==> j > 0 && key_le(outv[j - 1], xv),
            decreases j + (if stop {
                0int
            } else {
                1int
            }),
        {
            if key_le_exec(&out[j - 1], &x) {
                stop = true;
            } else {
                j -= 1;
            }
        }
        proof {
            lemma_insert_stable_at(outv, xv, j as int);
            crate::ranking::lemma_insert_stable_props(outv, xv);
        }
        out.insert(j, x);
        proof {
            let ghost n = outv.len() as int;
            assert(out.deep_view() =~= outv.subrange(0, j as int) + seq![xv] + outv.subrange(
                j as int,
                n,
            )) by {
                assert forall|t: int| 0 <= t < out.deep_view().len() implies out.deep_view()[t]
                    == (outv.subrange(0, j as int) + seq![xv] + outv.subrange(j as int, n))[t] by {
                    if t < j {
                    } else if t == j {
                    } else {
                    }
                }
            }
            assert(out.deep_view() == insert_stable(outv, xv));
            assert(orig.take(processed + 1).drop_last() =~= orig.take(processed));
            assert(orig.take(processed + 1).last() == orig[processed]);
            assert(stable_sort(orig.take(processed + 1)) == insert_stable(
                stable_sort(orig.take(processed)),
                orig[processed],
            ));
            processed = processed + 1;
        }
    }
    proof {
        assert(orig.take(processed) =~= orig);
    }
    out
}

/// Appending a hit adds 5 when it directly follows the last hit (or the
/// starting offset) and 3 otherwise.
proof fn lemma_score_push(h: Seq<int>, prev: int, p: int)
    ensures
        score_from(h.push(p), prev) == score_from(h, prev) + (if h.len() == 0 {
            if p == prev + 1 {
                5int
            } else {
                3int
            }
        } else {
            if p == h.last() + 1 {
                5int
            } else {
                3int
            }
        }),
    decreases h.len(),
{
    if h.len() == 0 {
        assert(h.push(p)[0] == p);
        assert(h.push(p).drop_first() =~= Seq::<int>::empty());
        assert(score_from(Seq::<int>::empty(), p) == 0);
        assert(score_from(h, prev) == 0);
        assert(score_from(h.push(p), prev) == (if p == prev + 1 {
            5int
        } else {
            3int
        }) + score_from(h.push(p).drop_first(), p));
    } else {
        assert(h.push(p)[0] == h[0]);
        assert(h.push(p).drop_first() =~= h.drop_first().push(p));
        lemma_score_push(h.drop_first(), h[0], p);
        if h.len() > 1 {
            assert(h.drop_first().last() == h.last());
        }
    }
}

} // verus!
