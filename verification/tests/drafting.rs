//! Prompt-lookup drafting.
use lfm25_inference::generation::ngram_drafter::NgramDrafter;

#[test]
fn test_draft_finds_exact_ngram_continuation() {
    let drafter = NgramDrafter::new(2, 3, 3);
    let history = vec![1, 2, 10, 20, 30, 40, 50, 60, 99, 10, 20, 30];
    let candidates = drafter.draft(&history);
    assert_eq!(candidates, vec![40, 50, 60]);
}

#[test]
fn test_draft_falls_back_to_shorter_ngram() {
    let drafter = NgramDrafter::new(2, 4, 3);
    // 3-gram [20, 30, 99] not found, but 2-gram [30, 99] is found
    // 2-gram match scales to max 2 tokens
    let history = vec![1, 2, 30, 99, 40, 50, 10, 20, 30, 99];
    let candidates = drafter.draft(&history);
    assert_eq!(candidates, vec![40, 50]);
}

#[test]
fn test_draft_depth_scaling_limits_2gram_to_2_tokens() {
    let drafter = NgramDrafter::new(2, 4, 5); // draft_length = 5
    let history = vec![10, 20, 30, 40, 50, 60, 70, 99, 10, 20];
    let candidates = drafter.draft(&history);
    // 2-gram match [10, 20] scales to at most 2 tokens
    assert_eq!(candidates, vec![30, 40]);
}

#[test]
fn test_draft_depth_scaling_allows_5_tokens_for_4gram() {
    let drafter = NgramDrafter::new(2, 5, 5);
    let history = vec![10, 20, 30, 40, 50, 60, 70, 80, 99, 10, 20, 30, 40];
    let candidates = drafter.draft(&history);
    // 4-gram match [10, 20, 30, 40] allows full 5 tokens
    assert_eq!(candidates, vec![50, 60, 70, 80, 99]);
}

#[test]
fn test_draft_prefers_higher_frequency_continuation() {
    let drafter = NgramDrafter::new(2, 3, 2);
    // [10, 20] is followed by [30, 40] TWICE, and by [90, 91] ONCE (more recently)
    let history = vec![
        10, 20, 30, 40, // occurrence 1
        1, 2, 10, 20, 30, 40, // occurrence 2
        3, 4, 10, 20, 90, 91, // occurrence 3 (more recent, but lower frequency)
        5, 6, 10, 20, // query suffix
    ];
    let candidates = drafter.draft(&history);
    // Frequency 2 wins over recency 1
    assert_eq!(candidates, vec![30, 40]);
}

#[test]
fn test_draft_multilingual_vietnamese_subwords() {
    let drafter = NgramDrafter::new(2, 4, 3);
    // Token IDs representing:
    // [Trí=1001, tuệ=1002, nhân=1003, tạo=1004, Việt=2001, Nam=2002]
    let history = vec![
        1001, 1002, 1003, 1004, // "Trí tuệ nhân tạo"
        50, 51, 2001, 2002, // "Việt Nam"
        60, 61, 1001, 1002, // Query suffix "Trí tuệ"
    ];
    let candidates = drafter.draft(&history);
    // Should predict continuation ["nhân", "tạo"]
    assert_eq!(candidates, vec![1003, 1004]);
}

#[test]
fn test_draft_empty_when_no_match() {
    let drafter = NgramDrafter::new(2, 3, 3);
    let history = vec![1, 2, 3, 4, 5, 6, 7];
    let candidates = drafter.draft(&history);
    assert!(candidates.is_empty());
}

#[test]
fn test_draft_empty_when_below_min_ngram() {
    let drafter = NgramDrafter::new(2, 4, 3);
    let history = vec![10]; // only 1 token, min_ngram is 2
    let candidates = drafter.draft(&history);
    assert!(candidates.is_empty());
}

#[test]
fn equal_frequencies_give_the_most_recent_continuation() {
    let drafter = NgramDrafter::new(2, 2, 2);
    let history = vec![10, 20, 30, 40, 10, 20, 90, 91, 10, 20];
    assert_eq!(drafter.draft(&history), vec![90, 91]);
}

#[test]
fn no_draft_length_gives_no_draft() {
    let drafter = NgramDrafter::new(1, 2, 0);
    assert!(drafter.draft(&[7, 7, 7, 7]).is_empty());
}

#[test]
fn single_tokens_may_be_looked_up() {
    // A smallest match of zero tokens is raised to one.
    let drafter = NgramDrafter::new(0, 1, 4);
    assert_eq!(drafter.draft(&[5, 6, 7, 5]), vec![6, 7, 5]);
}

#[test]
fn default_drafter_looks_up_three_to_five_tokens() {
    let drafter = NgramDrafter::default();
    assert_eq!(drafter.draft(&[1, 2, 3, 4, 5, 9, 1, 2, 3]), vec![4, 5, 9]);
    assert!(drafter.draft(&[1, 2, 4, 5, 9, 1, 2]).is_empty());
}

#[test]
fn drafts_are_copied_from_the_history_and_bounded() {
    let drafter = NgramDrafter::new(1, 4, 3);
    let history: Vec<u32> = (0..40).map(|i| i % 7).collect();
    let draft = drafter.draft(&history);
    assert!(!draft.is_empty() && draft.len() <= 3);
    assert!(history.windows(draft.len()).any(|window| window == draft.as_slice()));
}

#[test]
fn relabelled_histories_draft_relabelled_tokens() {
    let drafter = NgramDrafter::new(2, 3, 3);
    let history = vec![1, 2, 3, 4, 5, 1, 2, 3];
    let relabelled: Vec<u32> = history.iter().map(|token| token * 10 + 7).collect();
    let drafted: Vec<u32> =
        drafter.draft(&history).iter().map(|token| token * 10 + 7).collect();
    assert_eq!(drafter.draft(&relabelled), drafted);
    assert_eq!(drafted, vec![47, 57, 17]);
    // Only the tokens of the history have to stay apart.
    let folded: Vec<u32> = history.iter().map(|token| token % 6).collect();
    assert_eq!(drafter.draft(&folded), vec![4, 5, 1]);
}
