use mmemo::matcher::Matcher;
use mmemo::ranking::MatchKind;

fn items(v: &[&str]) -> Vec<String> {
    v.iter().map(|s| s.to_string()).collect()
}

#[test]
fn example_candidates_rank_in_tier_order() {
    // Prefix matches first in original order, then the substring match,
    // then the fuzzy match.
    let mut m = Matcher::new(items(&["abc.md", "abc_memo.md", "my_abc_memo.md", "a_b_c.md"]));
    let r = m.fuzzy_match("abc");
    let names: Vec<&str> = r.iter().map(|x| x.item.as_str()).collect();
    assert_eq!(names, vec!["abc.md", "abc_memo.md", "my_abc_memo.md", "a_b_c.md"]);
    assert_eq!(r[0].kind, MatchKind::Prefix);
    assert_eq!(r[1].kind, MatchKind::Prefix);
    assert_eq!(r[2].kind, MatchKind::Substring);
    assert_eq!(r[2].score, Some(3));
    assert_eq!(r[3].kind, MatchKind::Fuzzy);
}

#[test]
fn empty_candidate_set_always_ranks_empty() {
    let mut m = Matcher::new(Vec::new());
    assert!(m.fuzzy_match("").is_empty());
    assert!(m.fuzzy_match("a").is_empty());
    assert!(m.fuzzy_match("abc").is_empty());
}

#[test]
fn missing_character_excludes_candidate_entirely() {
    // 'z' never occurs in the candidate: it must be dropped, not scored.
    let mut m = Matcher::new(items(&["abc.md"]));
    let r = m.fuzzy_match("z");
    assert!(r.is_empty());
    let r = m.fuzzy_match("az");
    assert!(r.is_empty());
}

#[test]
fn empty_query_returns_all_unfiltered_in_order() {
    let mut m = Matcher::new(items(&["b", "a", "c"]));
    let r = m.fuzzy_match("");
    let names: Vec<&str> = r.iter().map(|x| x.item.as_str()).collect();
    assert_eq!(names, vec!["b", "a", "c"]);
    for x in &r {
        assert_eq!(x.kind, MatchKind::Unfiltered);
        assert_eq!(x.score, None);
        assert!(x.hits.is_empty());
    }
}

#[test]
fn repeated_calls_return_identical_output() {
    let mut m = Matcher::new(items(&["abc.md", "a_b_c.md", "zzz"]));
    let first = m.fuzzy_match("abc");
    let second = m.fuzzy_match("abc");
    assert_eq!(first.len(), second.len());
    for (x, y) in first.iter().zip(second.iter()) {
        assert_eq!(x.item, y.item);
        assert_eq!(x.kind, y.kind);
        assert_eq!(x.score, y.score);
        assert_eq!(x.hits, y.hits);
    }
}

#[test]
fn cached_rescan_equals_full_rescan() {
    // Build the query character by character on one matcher (cached
    // subset path) and all at once on a fresh one (full rescan).
    let candidates = [
        "abc.md",
        "abc_memo.md",
        "my_abc_memo.md",
        "a_b_c.md",
        "nothing",
        "cab",
        "ab",
    ];
    let mut warm = Matcher::new(items(&candidates));
    warm.fuzzy_match("a");
    warm.fuzzy_match("ab");
    let incremental = warm.fuzzy_match("abc");
    let mut cold = Matcher::new(items(&candidates));
    let full = cold.fuzzy_match("abc");
    assert_eq!(incremental.len(), full.len());
    for (x, y) in incremental.iter().zip(full.iter()) {
        assert_eq!(x.item, y.item);
        assert_eq!(x.kind, y.kind);
        assert_eq!(x.score, y.score);
        assert_eq!(x.hits, y.hits);
    }
}

#[test]
fn cache_of_empty_survivors_short_circuits_correctly() {
    let mut m = Matcher::new(items(&["abc"]));
    assert!(m.fuzzy_match("zzz").is_empty());
    // Extending a query that matched nothing must still match nothing.
    assert!(m.fuzzy_match("zzzz").is_empty());
    // A non-extension re-scans from scratch.
    assert_eq!(m.fuzzy_match("a").len(), 1);
}

#[test]
fn exact_match_outranks_prefix() {
    let mut m = Matcher::new(items(&["abcd", "abc"]));
    let r = m.fuzzy_match("abc");
    assert_eq!(r[0].item, "abc");
    assert_eq!(r[0].kind, MatchKind::Exact);
    assert_eq!(r[0].score, None);
    assert_eq!(r[0].hits, vec![0, 1, 2]);
    assert_eq!(r[1].item, "abcd");
    assert_eq!(r[1].kind, MatchKind::Prefix);
    assert_eq!(r[1].hits, vec![0, 1, 2]);
}

#[test]
fn substring_score_is_leftmost_full_occurrence() {
    // The first 'a' at offset 1 starts no full match; the real match
    // starts at offset 3.
    let m = Matcher::new(Vec::new());
    let r = m.match_item("xaxabc", "abc").unwrap();
    assert_eq!(r.kind, MatchKind::Substring);
    assert_eq!(r.score, Some(3));
    assert_eq!(r.hits, vec![3, 4, 5]);
}

#[test]
fn substring_orders_by_offset() {
    let mut m = Matcher::new(items(&["xxabc", "xabc"]));
    let r = m.fuzzy_match("abc");
    assert_eq!(r[0].item, "xabc");
    assert_eq!(r[0].score, Some(1));
    assert_eq!(r[1].item, "xxabc");
    assert_eq!(r[1].score, Some(2));
}

#[test]
fn fuzzy_scoring_rewards_detached_hits_with_three() {
    let m = Matcher::new(Vec::new());
    // a at 0, b at 2, c at 4: three detached hits.
    let r = m.match_item("a_b_c.md", "abc").unwrap();
    assert_eq!(r.kind, MatchKind::Fuzzy);
    assert_eq!(r.score, Some(9));
    assert_eq!(r.hits, vec![0, 2, 4]);
}

#[test]
fn fuzzy_scoring_charges_adjacent_hits_five() {
    let m = Matcher::new(Vec::new());
    // a at 0 (+3), b at 2 (+3), c at 3 adjacent to b (+5).
    let r = m.match_item("a-bcx", "abc").unwrap();
    assert_eq!(r.kind, MatchKind::Fuzzy);
    assert_eq!(r.score, Some(11));
    assert_eq!(r.hits, vec![0, 2, 3]);
}

#[test]
fn match_item_rejects_out_of_order_subsequence() {
    let m = Matcher::new(Vec::new());
    assert!(m.match_item("cab", "abc").is_none());
    assert!(m.match_item("ab", "abc").is_none());
}

#[test]
fn tiers_sort_before_scores() {
    let mut m = Matcher::new(items(&["a_b_c", "xxxabc", "abcx", "abc"]));
    let r = m.fuzzy_match("abc");
    let kinds: Vec<MatchKind> = r.iter().map(|x| x.kind).collect();
    assert_eq!(
        kinds,
        vec![MatchKind::Exact, MatchKind::Prefix, MatchKind::Substring, MatchKind::Fuzzy]
    );
}

#[test]
fn equal_keys_keep_original_candidate_order() {
    let mut m = Matcher::new(items(&["abc_one", "abc_two", "abc_three"]));
    let r = m.fuzzy_match("abc");
    let names: Vec<&str> = r.iter().map(|x| x.item.as_str()).collect();
    assert_eq!(names, vec!["abc_one", "abc_two", "abc_three"]);
}

#[test]
fn duplicate_candidates_both_appear() {
    let mut m = Matcher::new(items(&["same.md", "same.md"]));
    let r = m.fuzzy_match("same");
    assert_eq!(r.len(), 2);
    assert_eq!(r[0].item, "same.md");
    assert_eq!(r[1].item, "same.md");
}
