use qwen_engine::ngram::{fnv1a_tokens, Colliding, NgramIndex, TokenHasher};

fn index_of(tokens: &[u32]) -> NgramIndex {
    let mut index = NgramIndex::new();
    index.extend(tokens);
    index
}

#[test]
fn lookup_returns_the_most_recent_prior_occurrence() {
    // "1 2 3" occurs at positions ending 2 and 6; the suffix repeats it.
    let index = index_of(&[1, 2, 3, 9, 1, 2, 3, 8, 1, 2, 3]);
    assert_eq!(index.most_recent_match(3), Some(6));
    assert_eq!(index.most_recent_match(2), Some(6));
}

#[test]
fn draft_continues_from_the_most_recent_occurrence() {
    let index = index_of(&[1, 2, 3, 40, 41, 42, 9, 1, 2, 3, 50, 51, 52, 1, 2, 3]);
    let draft = index.draft(3, 3, |_| false).unwrap();
    assert_eq!(draft.tokens, [50, 51, 52]);
    assert_eq!(index.tokens()[draft.source_position], 3);
}

#[test]
fn longer_keys_are_preferred_over_shorter_ones() {
    // Suffix "7 2 3": the "2 3" bigram last occurred at a different place
    // than the "7 2 3" trigram, so the trigram's continuation must win.
    let index = index_of(&[7, 2, 3, 60, 5, 2, 3, 70, 7, 2, 3]);
    let draft = index.draft(1, 3, |_| false).unwrap();
    assert_eq!(draft.match_len, 3);
    assert_eq!(draft.tokens, [60]);
    let shorter = index.draft(1, 2, |_| false).unwrap();
    assert_eq!(shorter.match_len, 3, "longest key still wins when it hits");
}

#[test]
fn min_match_two_finds_matches_a_trigram_key_would_miss() {
    let index = index_of(&[4, 5, 99, 1, 2, 4, 5]);
    assert!(index.draft(2, 3, |_| false).is_none());
    let draft = index.draft(2, 2, |_| false).unwrap();
    assert_eq!(draft.match_len, 2);
    assert_eq!(draft.tokens, [99, 1]);
}

#[test]
fn draft_truncates_at_the_first_stop_token() {
    let index = index_of(&[1, 2, 3, 40, 41, 77, 42, 1, 2, 3]);
    let draft = index.draft(5, 3, |token| token == 77).unwrap();
    assert_eq!(draft.tokens, [40, 41]);
    assert!(draft.truncated_at_stop);
}

#[test]
fn draft_is_empty_when_the_continuation_starts_with_a_stop_token() {
    let index = index_of(&[1, 2, 3, 77, 40, 1, 2, 3]);
    assert!(index.draft(5, 3, |token| token == 77).is_none());
}

#[test]
fn a_sequence_without_repetition_drafts_nothing() {
    let index = index_of(&[1, 2, 3, 4, 5, 6, 7, 8]);
    assert!(index.draft(4, 3, |_| false).is_none());
    assert!(index.draft(4, 2, |_| false).is_none());
}

#[test]
fn hash_collisions_are_rejected_by_comparing_token_ids() {
    // Every key hashes to the same bucket, so the map hands back a
    // position whose tokens do not match the current suffix.
    let mut index = NgramIndex::with_hasher(Colliding { key: 0 });
    index.extend(&[1, 2, 3, 40, 41, 42, 7, 8, 9]);
    assert_eq!(index.most_recent_match(3), None);
    assert!(index.draft(4, 3, |_| false).is_none());

    // A colliding key costs a match it would otherwise have found: the
    // real occurrence of "1 2 3" at position 2 was overwritten by later
    // trigrams sharing the bucket. Degrading to a miss is the required
    // behavior; proposing position 5's tokens would not be.
    let mut overwritten = NgramIndex::with_hasher(Colliding { key: 0 });
    overwritten.extend(&[1, 2, 3, 40, 41, 1, 2, 3]);
    assert_eq!(overwritten.most_recent_match(3), None);
    assert!(overwritten.draft(2, 3, |_| false).is_none());

    // Verified equality still accepts a genuine match under the same
    // degenerate hash when the stored position's tokens do compare equal.
    let mut periodic = NgramIndex::with_hasher(Colliding { key: 0 });
    periodic.extend(&[5, 5, 5, 5]);
    assert_eq!(periodic.most_recent_match(3), Some(2));
    assert_eq!(periodic.draft(1, 3, |_| false).unwrap().tokens, [5]);
}

#[test]
fn draft_is_clamped_to_the_tokens_that_exist() {
    let index = index_of(&[1, 2, 3, 40, 1, 2, 3]);
    let draft = index.draft(8, 3, |_| false).unwrap();
    assert_eq!(draft.tokens, [40, 1, 2, 3]);
}

#[test]
fn clear_drops_every_indexed_position() {
    let mut index = index_of(&[1, 2, 3, 40, 1, 2, 3]);
    index.clear();
    assert!(index.is_empty());
    assert_eq!(index.most_recent_match(3), None);
    index.extend(&[1, 2, 3]);
    assert_eq!(index.most_recent_match(3), None);
}

#[test]
fn zero_draft_length_proposes_nothing() {
    let index = index_of(&[1, 2, 3, 40, 1, 2, 3]);
    assert!(index.draft(0, 3, |_| false).is_none());
}

#[test]
fn the_hash_is_fnv1a() {
    assert_eq!(fnv1a_tokens(&[]), 0xcbf2_9ce4_8422_2325);
    assert_eq!(
        fnv1a_tokens(&[97]),
        (0xcbf2_9ce4_8422_2325u64 ^ 97).wrapping_mul(0x0000_0100_0000_01b3)
    );
}

struct Lengths;

impl TokenHasher for Lengths {
    fn hash(&self, tokens: &[u32]) -> u64 {
        tokens.len() as u64
    }
}

#[test]
fn any_hash_finds_only_real_repetitions() {
    let mut index = NgramIndex::with_hasher(Lengths);
    index.extend(&[1, 2, 3, 1, 2]);
    assert_eq!(index.most_recent_match(2), None);
    index.clear();
    index.extend(&[6, 6, 6]);
    assert_eq!(index.most_recent_match(2), Some(1));
    assert_eq!(index.len(), 3);
}
