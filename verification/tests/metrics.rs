use resemblance::{
    AcronymScorer, CaseInsensitiveScorer, Contains, CosineScorer, EditDistanceScorer, Exact,
    ExactMatchScorer, JaccardMetric, Levenshtein, NGramScorer, NumericSimilarity,
    PercentageProximityScorer, PhoneticMode, PhoneticScorer, PrefixScorer, Relaxed, Sequential,
    SimpleLevenshteinMetric, SoundexScorer, SoundexSimilarity, SubstringScorer, SuffixScorer,
    TokenSimilarityScorer, Capability, SCALE,
};
use resemblance::damerau_levenshtein_distance;

fn s(text: &str) -> String {
    String::from(text)
}

fn score_of<M: Capability>(metric: &M, q: &str, c: &str) -> u64 {
    metric.measure(&s(q), &s(c)).expect("a total capability never fails").score
}

fn perfect_of<M: Capability>(metric: &M, q: &str, c: &str) -> bool {
    metric.measure(&s(q), &s(c)).expect("a total capability never fails").perfect
}

#[test]
fn damerau_levenshtein_matches_known_distances() {
    assert_eq!(damerau_levenshtein_distance("kitten", "sitting"), 3);
    assert_eq!(damerau_levenshtein_distance("ab", "ba"), 1);
    assert_eq!(damerau_levenshtein_distance("abc", "abc"), 0);
    assert_eq!(damerau_levenshtein_distance("", "abc"), 3);
    assert_eq!(damerau_levenshtein_distance("abc", ""), 3);
    // Optimal string alignment never edits a substring twice.
    assert_eq!(damerau_levenshtein_distance("ca", "abc"), 3);
}

#[test]
fn exact_and_relaxed_matching() {
    assert_eq!(score_of(&ExactMatchScorer, "abc", "abc"), SCALE);
    assert_eq!(score_of(&ExactMatchScorer, "abc", "abd"), 0);
    assert!(perfect_of(&ExactMatchScorer, "abc", "abc"));
    assert_eq!(score_of(&Exact, "abc", "abc"), SCALE);
    // Case-insensitive equality scores 0.95; the lowercase delegation
    // would fail if the case conversion handed its input back unchanged.
    assert_eq!(score_of(&CaseInsensitiveScorer, "ABC", "abc"), 950_000);
    assert!(perfect_of(&CaseInsensitiveScorer, "ABC", "abc"));
    assert_eq!(score_of(&Relaxed, "ABC", "abc"), 950_000);
    assert!(!perfect_of(&Relaxed, "ABC", "abc"));
    assert_eq!(score_of(&Relaxed, "abc", "xyz"), 0);
}

#[test]
fn positional_containment_scales_with_coverage() {
    assert_eq!(score_of(&PrefixScorer, "foo", "FooBar"), 450_000);
    assert_eq!(score_of(&PrefixScorer, "bar", "foobar"), 0);
    assert_eq!(score_of(&SuffixScorer, "bar", "foobar"), 425_000);
    assert_eq!(score_of(&SubstringScorer, "oba", "foobar"), 400_000);
    assert_eq!(score_of(&Contains, "oba", "foobar"), 400_000);
    assert_eq!(score_of(&Contains, "same", "same"), SCALE);
    assert!(perfect_of(&Contains, "same", "same"));
}

#[test]
fn edit_distance_similarity_is_normalized() {
    assert_eq!(score_of(&EditDistanceScorer, "test", "tent"), 750_000);
    assert_eq!(score_of(&EditDistanceScorer, "", ""), SCALE);
    assert_eq!(score_of(&Levenshtein, "test", "test"), SCALE);
    assert!(perfect_of(&Levenshtein, "test", "test"));
    assert_eq!(score_of(&Levenshtein, "test", "tent"), 750_000);
    assert_eq!(score_of(&SimpleLevenshteinMetric, "ab", "abcde"), 400_000);
}

#[test]
fn ngram_overlap_uses_the_dice_coefficient() {
    assert_eq!(score_of(&NGramScorer::new(2), "night", "nacht"), 250_000);
    assert_eq!(score_of(&NGramScorer::new(2), "", ""), SCALE);
    assert_eq!(score_of(&NGramScorer::new(2), "ab", ""), 0);
    assert_eq!(score_of(&Sequential::new(2), "night", "nacht"), 250_000);
    assert_eq!(score_of(&Sequential::new(2), "same", "same"), SCALE);
    assert!(perfect_of(&Sequential::new(2), "same", "same"));
}

#[test]
fn cosine_similarity_counts_gram_occurrences() {
    // "aaa" holds the bigram "aa" twice, "aa" holds it once: the dot
    // product is 2 and the norms are 2 and 1, so the cosine is exactly
    // one unit. A count map that dropped its entries would score zero.
    assert_eq!(score_of(&CosineScorer::new(2), "aaa", "aa"), SCALE);
    assert_eq!(score_of(&CosineScorer::new(2), "ab", "ab"), SCALE);
    assert_eq!(score_of(&CosineScorer::new(2), "ab", "cd"), 0);
    assert_eq!(score_of(&CosineScorer::new(2), "", ""), SCALE);
}

#[test]
fn jaccard_counts_distinct_shared_characters() {
    // Sets {a,b} and {b,c}: one shared character over a union of three.
    // A hash set that reported no members would score zero instead.
    assert_eq!(score_of(&JaccardMetric, "ab", "bc"), 333_333);
    assert_eq!(score_of(&JaccardMetric, "", ""), SCALE);
    assert_eq!(score_of(&JaccardMetric, "test", "tent"), 500_000);
}

#[test]
fn token_similarity_blends_best_matches() {
    let scorer = TokenSimilarityScorer::default();
    assert_eq!(score_of(&scorer, "hello world", "hello word"), SCALE);
    assert_eq!(score_of(&scorer, "alpha", "omega"), 200_000);
}

#[test]
fn split_on_separators_handles_camel_case() {
    let scorer = TokenSimilarityScorer::default();
    let tokens = scorer.split_on_separators("fooBar_baz");
    assert_eq!(tokens, vec![s("foo"), s("Bar"), s("baz")]);
    let empty = scorer.split_on_separators("___");
    assert!(empty.is_empty());
}

#[test]
fn acronyms_match_first_letters() {
    assert_eq!(score_of(&AcronymScorer::default(), "fb", "foo bar"), 750_000);
    assert_eq!(score_of(&AcronymScorer::default(), "fb", "bar foo"), 0);
    assert_eq!(score_of(&AcronymScorer::default(), "toolong", "t o o l o n g"), 0);
}

#[test]
fn phonetic_codes_follow_soundex() {
    let scorer = PhoneticScorer::default();
    assert_eq!(scorer.soundex(&s("Robert")), "R163");
    assert_eq!(scorer.soundex(&s("Rupert")), "R163");
    assert_eq!(scorer.soundex(&s("")), "0000");
    assert_eq!(score_of(&scorer, "Robert", "Rupert"), 850_000);
    // Shared prefix of the codes R163 and R150: two positions.
    assert_eq!(scorer.soundex(&s("Ronald")), "R543");
    let metaphone = PhoneticScorer::new(PhoneticMode::DoubleMetaphone);
    assert_eq!(score_of(&metaphone, "Same", "sAME"), SCALE);
    assert_eq!(score_of(&metaphone, "Robert", "Rupert"), 800_000);
}

#[test]
fn classic_soundex_keeps_the_first_letter_digit() {
    // This variant codes every character including the first, so Robert
    // becomes R6163 under the default length of four digit positions;
    // the delegation to uppercasing would fail on lowercase input
    // otherwise.
    let scorer = SoundexSimilarity::default();
    assert_eq!(scorer.soundex("Robert"), "R6163");
    assert_eq!(scorer.soundex("robert"), "R6163");
    assert_eq!(scorer.soundex(""), "0000");
    assert_eq!(scorer.soundex("123"), "0000");
    assert_eq!(score_of(&scorer, "Robert", "robert"), SCALE);
    let twin = SoundexScorer::default();
    assert_eq!(twin.soundex("Robert"), "R6163");
    assert_eq!(score_of(&twin, "", ""), SCALE);
    assert!(perfect_of(&twin, "Robert", "robert"));
}

#[test]
fn soundex_partial_scores_share_positions() {
    let scorer = SoundexSimilarity::new(4, false);
    // Codes R6163 ("Robert") and R6165 ("Roberts"... differs in the last
    // position): four of five positions agree plus the first-letter
    // bonus, clamped to one unit.
    let score = score_of(&scorer, "Robert", "Rabarta");
    assert!(score > 0 && score <= SCALE);
}

#[test]
fn numeric_scorers_are_exact() {
    assert_eq!(PercentageProximityScorer.score(50, 100), 500_000);
    assert_eq!(PercentageProximityScorer.score(7, 7), SCALE);
    assert_eq!(PercentageProximityScorer.score(0, 3), 0);
    assert!(PercentageProximityScorer.exact(4, 4));
    assert_eq!(NumericSimilarity.score(30, 80), 500_000);
    assert_eq!(NumericSimilarity.score(0, 500), 0);
    assert_eq!(NumericSimilarity.score(9, 9), SCALE);
}
