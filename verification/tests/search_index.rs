use vellum::index::{
    evidence_span, ngram_counts, normalized_chars, ordered_ngrams, plan_search, query_grams,
    rank_matches, SearchPlan, MAX_QUERY_NGRAMS,
};

#[test]
fn normalization_drops_space_and_ascii_punctuation() {
    let v = normalized_chars("a, b!\u{3000}沈砚，c");
    let s: String = v.into_iter().collect();
    assert_eq!(s, "ab沈砚，c");
}

#[test]
fn ngram_counts_of_repeating_text() {
    let mut counts = ngram_counts("abab");
    counts.sort();
    assert_eq!(
        counts,
        vec![
            ("ab".to_string(), 2),
            ("aba".to_string(), 1),
            ("ba".to_string(), 1),
            ("bab".to_string(), 1),
        ]
    );
    assert!(ngram_counts("a").is_empty());
    let total: usize = ngram_counts("沈砚站在廊下").iter().map(|(_, c)| c).sum();
    assert_eq!(total, 5 + 4);
}

#[test]
fn ordered_ngrams_trigrams_first_without_repeats() {
    let g = ordered_ngrams("abab");
    assert_eq!(g, vec!["aba", "bab", "ab", "ba"]);
    assert_eq!(ordered_ngrams("沈砚 酒盏"), vec!["沈砚酒", "砚酒盏", "沈砚", "砚酒", "酒盏"]);
}

#[test]
fn query_grams_are_capped() {
    let long: String = (0..200u32).map(|i| char::from_u32(0x4e00 + i).unwrap()).collect();
    let g = query_grams(&long);
    assert_eq!(g.len(), MAX_QUERY_NGRAMS);
    assert_eq!(g, ordered_ngrams(&long)[..MAX_QUERY_NGRAMS].to_vec());
}

#[test]
fn empty_queries_fall_back_to_first_chunks() {
    assert!(matches!(plan_search(" ,. "), SearchPlan::FirstChunks));
    match plan_search("沈砚") {
        SearchPlan::Lookup(g) => assert_eq!(g, vec!["沈砚"]),
        other => panic!("unexpected {other:?}"),
    }
}

#[test]
fn ranking_sums_sorts_and_limits() {
    let ms = vec![(3, 2), (1, 5), (3, 4), (2, 6), (7, 1)];
    assert_eq!(rank_matches(&ms, 10).unwrap(), vec![(2, 6), (3, 6), (1, 5), (7, 1)]);
    assert_eq!(rank_matches(&ms, 2).unwrap(), vec![(2, 6), (3, 6)]);
    assert_eq!(rank_matches(&ms, 0).unwrap(), vec![]);
    assert!(rank_matches(&Vec::new(), 3).is_none());
}

#[test]
fn evidence_is_previewed_and_capped() {
    let text = "字".repeat(1000);
    let e = evidence_span("b1", 4, "第一章".to_string(), 10, 20, &text, 7);
    assert_eq!(e.chunk.book_id, "b1");
    assert_eq!(e.chunk.chunk_index, 4);
    assert_eq!(e.chunk.preview.chars().count(), 80);
    assert_eq!(e.text.chars().count(), 900);
    assert_eq!(e.chunk.score, 7);
    let short = evidence_span("b1", 0, String::new(), 0, 2, "短文", 1);
    assert_eq!(short.text, "短文");
    assert_eq!(short.chunk.preview, "短文");
}

#[test]
fn query_grams_match_indexed_grams() {
    for text in ["abab", "沈砚 酒盏 夜宴", "a", ""] {
        let mut query = ordered_ngrams(text);
        query.sort();
        let mut indexed: Vec<String> = ngram_counts(text).into_iter().map(|(g, _)| g).collect();
        indexed.sort();
        assert_eq!(query, indexed);
        assert!(ngram_counts(text).iter().all(|(_, c)| *c > 0));
    }
}

#[test]
fn ordered_ngrams_follow_first_occurrence() {
    assert_eq!(ordered_ngrams("abcab"), vec!["abc", "bca", "cab", "ab", "bc", "ca"]);
    assert_eq!(ordered_ngrams("a"), Vec::<String>::new());
}
