//! What a whole lookup comes to, whatever the files that it reads hold.

use crate::prompt_cache::cache::{evicted, is_usable, PromptCacheView};
use crate::prompt_cache::index::{CandidateView, FileView};
use crate::prompt_cache::keys::EntryKey;
use vstd::prelude::*;

verus! {

/// Whether the prefix of `b` tokens has an entry, and reading its file gives a
/// usable one. `reads` is what the file of each prefix turns out to hold, or
/// nothing where it cannot be read.
pub open spec fn usable_at(
    cache: PromptCacheView,
    tokens: Seq<u32>,
    b: int,
    reads: spec_fn(int) -> Option<Seq<u8>>,
) -> bool {
    &&& cache.is_boundary(b, tokens.len() as int)
    &&& cache.is_indexed(tokens, b)
    &&& is_usable(reads(b), tokens.take(b), cache.fingerprint, cache.layer_kinds)
}

/// The cache after a whole lookup, and how many tokens were found: entries are
/// tried from the longest down, an unusable one is forgotten, and a usable one
/// ends the lookup.
pub open spec fn looked_up(
    cache: PromptCacheView,
    tokens: Seq<u32>,
    above: int,
    below: int,
    reads: spec_fn(int) -> Option<Seq<u8>>,
    now: i128,
) -> (PromptCacheView, Option<int>)
    decreases below - above,
{
    let b = below - 1;
    if b <= above {
        (cache.missed(), None)
    } else if !cache.is_boundary(b, tokens.len() as int) || !cache.is_indexed(tokens, b) {
        looked_up(cache, tokens, above, b, reads, now)
    } else {
        let key = EntryKey::spec_of(tokens.take(b));
        if usable_at(cache, tokens, b, reads) {
            (cache.reused(key, b as usize, now), Some(b))
        } else {
            looked_up(cache.discarded(key), tokens, above, b, reads, now)
        }
    }
}

/// Forgetting the entry of one prefix leaves those of shorter ones.
proof fn lemma_discarding_keeps_shorter(cache: PromptCacheView, tokens: Seq<u32>, b: int, c: int)
    requires
        tokens.len() <= usize::MAX,
        0 <= c < b <= tokens.len(),
    ensures
        cache.discarded(EntryKey::spec_of(tokens.take(b))).is_indexed(tokens, c)
            == cache.is_indexed(tokens, c),
{
    assert(EntryKey::spec_of(tokens.take(b)).tokens == b);
    assert(EntryKey::spec_of(tokens.take(c)).tokens == c);
}

/// A lookup comes to what it comes to below the lengths without an entry.
proof fn lemma_lookup_skips(
    cache: PromptCacheView,
    tokens: Seq<u32>,
    above: int,
    below: int,
    to: int,
    reads: spec_fn(int) -> Option<Seq<u8>>,
    now: i128,
)
    requires
        above < to <= below,
        forall|b: int| #[trigger]
            cache.is_boundary(b, tokens.len() as int) && to <= b < below ==> !cache.is_indexed(
                tokens,
                b,
            ),
    ensures
        looked_up(cache, tokens, above, below, reads, now) == looked_up(
            cache,
            tokens,
            above,
            to,
            reads,
            now,
        ),
    decreases below - to,
{
    if to < below {
        assert(cache.is_boundary(below - 1, tokens.len() as int) ==> !cache.is_indexed(
            tokens,
            below - 1,
        ));
        lemma_lookup_skips(cache, tokens, above, below - 1, to, reads, now);
    }
}

/// A lookup that has no file left to read has missed.
pub proof fn a_lookup_without_entries_misses(
    cache: PromptCacheView,
    tokens: Seq<u32>,
    above: int,
    below: int,
    reads: spec_fn(int) -> Option<Seq<u8>>,
    now: i128,
)
    requires
        forall|b: int| #[trigger]
            cache.is_boundary(b, tokens.len() as int) && above < b < below ==> !cache.is_indexed(
                tokens,
                b,
            ),
    ensures
        looked_up(cache, tokens, above, below, reads, now) == (cache.missed(), None::<int>),
{
    if above + 1 <= below {
        lemma_lookup_skips(cache, tokens, above, below, above + 1, reads, now);
    }
}

/// A lookup reads the longest entry next. Where that is usable it ends there;
/// where it is not, the lookup goes on below it without that entry.
pub proof fn a_lookup_goes_on_below_an_unusable_entry(
    cache: PromptCacheView,
    tokens: Seq<u32>,
    above: int,
    below: int,
    b: int,
    reads: spec_fn(int) -> Option<Seq<u8>>,
    now: i128,
)
    requires
        above < b < below,
        cache.is_boundary(b, tokens.len() as int),
        cache.is_indexed(tokens, b),
        forall|c: int| #[trigger]
            cache.is_boundary(c, tokens.len() as int) && b < c < below ==> !cache.is_indexed(
                tokens,
                c,
            ),
    ensures
        looked_up(cache, tokens, above, below, reads, now) == ({
            let key = EntryKey::spec_of(tokens.take(b));
            if is_usable(reads(b), tokens.take(b), cache.fingerprint, cache.layer_kinds) {
                (cache.reused(key, b as usize, now), Some(b))
            } else {
                looked_up(cache.discarded(key), tokens, above, b, reads, now)
            }
        }),
{
    lemma_lookup_skips(cache, tokens, above, below, b + 1, reads, now);
}

/// Forgetting one entry leaves what is usable below it.
proof fn lemma_usable_below(
    cache: PromptCacheView,
    tokens: Seq<u32>,
    b: int,
    c: int,
    reads: spec_fn(int) -> Option<Seq<u8>>,
)
    requires
        tokens.len() <= usize::MAX,
        c < b <= tokens.len(),
    ensures
        usable_at(cache.discarded(EntryKey::spec_of(tokens.take(b))), tokens, c, reads)
            == usable_at(cache, tokens, c, reads),
{
    if cache.is_boundary(c, tokens.len() as int) {
        lemma_discarding_keeps_shorter(cache, tokens, b, c);
    }
}

/// Whether a length is the longest usable one within bounds, or there is none.
pub open spec fn is_longest_usable(
    found: Option<int>,
    cache: PromptCacheView,
    tokens: Seq<u32>,
    above: int,
    below: int,
    reads: spec_fn(int) -> Option<Seq<u8>>,
) -> bool {
    match found {
        Some(b) => {
            &&& above < b < below
            &&& usable_at(cache, tokens, b, reads)
            &&& forall|c: int| b < c < below ==> !#[trigger] usable_at(cache, tokens, c, reads)
        },
        None => forall|c: int|
            above < c < below ==> !#[trigger] usable_at(cache, tokens, c, reads),
    }
}

/// Whether a lookup that found so many tokens was counted: one hit and its
/// tokens, or one miss, and one failure for each entry that is gone.
pub open spec fn is_counted(
    found: Option<int>,
    before: PromptCacheView,
    after: PromptCacheView,
) -> bool {
    let gone = before.index.entries.dom().len() - after.index.entries.dom().len();
    &&& match found {
        Some(b) => {
            &&& after.counters.hits == before.counters.hits.wrapping_add(1)
            &&& after.counters.misses == before.counters.misses
            &&& after.counters.reused_tokens == before.counters.reused_tokens.wrapping_add(b as u64)
        },
        None => {
            &&& after.counters.hits == before.counters.hits
            &&& after.counters.misses == before.counters.misses.wrapping_add(1)
            &&& after.counters.reused_tokens == before.counters.reused_tokens
        },
    }
    &&& after.index.entries.dom().finite()
    &&& gone >= 0
    &&& after.counters.failures == (before.counters.failures + gone) % (u64::MAX + 1)
}

proof fn lemma_lookup_finds(
    cache: PromptCacheView,
    tokens: Seq<u32>,
    above: int,
    below: int,
    reads: spec_fn(int) -> Option<Seq<u8>>,
    now: i128,
)
    requires
        tokens.len() <= usize::MAX,
    ensures
        is_longest_usable(
            looked_up(cache, tokens, above, below, reads, now).1,
            cache,
            tokens,
            above,
            below,
            reads,
        ),
    decreases below - above,
{
    let b = below - 1;
    if b > above && !usable_at(cache, tokens, b, reads) {
        if !cache.is_boundary(b, tokens.len() as int) || !cache.is_indexed(tokens, b) {
            lemma_lookup_finds(cache, tokens, above, b, reads, now);
        } else {
            let rest = cache.discarded(EntryKey::spec_of(tokens.take(b)));
            lemma_lookup_finds(rest, tokens, above, b, reads, now);
            assert forall|c: int| c < b implies #[trigger] usable_at(cache, tokens, c, reads)
                == usable_at(rest, tokens, c, reads) by {
                lemma_usable_below(cache, tokens, b, c, reads);
            }
        }
    }
}

proof fn lemma_lookup_counts(
    cache: PromptCacheView,
    tokens: Seq<u32>,
    above: int,
    below: int,
    reads: spec_fn(int) -> Option<Seq<u8>>,
    now: i128,
)
    requires
        tokens.len() <= usize::MAX,
        cache.index.entries.dom().finite(),
    ensures
        ({
            let (after, found) = looked_up(cache, tokens, above, below, reads, now);
            is_counted(found, cache, after)
        }),
    decreases below - above,
{
    let b = below - 1;
    if b > above {
        if !cache.is_boundary(b, tokens.len() as int) || !cache.is_indexed(tokens, b) {
            lemma_lookup_counts(cache, tokens, above, b, reads, now);
        } else {
            let key = EntryKey::spec_of(tokens.take(b));
            if usable_at(cache, tokens, b, reads) {
                let after = cache.reused(key, b as usize, now);
                assert(after.index.entries.dom() =~= cache.index.entries.dom());
            } else {
                let rest = cache.discarded(key);
                assert(rest.index.entries.dom() =~= cache.index.entries.dom().remove(key));
                lemma_lookup_counts(rest, tokens, above, b, reads, now);
            }
        }
    }
}

/// A lookup finds the longest usable prefix above what the caller holds, and
/// nothing only where no such prefix is usable. It counts one hit and the
/// tokens that it found, or one miss; and it counts one failure for each entry
/// that it forgets.
pub proof fn a_lookup_finds_the_longest_usable_prefix(
    cache: PromptCacheView,
    tokens: Seq<u32>,
    above: int,
    below: int,
    reads: spec_fn(int) -> Option<Seq<u8>>,
    now: i128,
)
    requires
        tokens.len() <= usize::MAX,
        cache.index.entries.dom().finite(),
    ensures
        ({
            let (after, found) = looked_up(cache, tokens, above, below, reads, now);
            &&& is_longest_usable(found, cache, tokens, above, below, reads)
            &&& is_counted(found, cache, after)
        }),
{
    lemma_lookup_finds(cache, tokens, above, below, reads, now);
    lemma_lookup_counts(cache, tokens, above, below, reads, now);
}

/// What was written is reused: a lookup for any prompt that goes on from a
/// stored prefix finds that prefix or a longer one, as long as the file still
/// holds a usable entry.
pub proof fn a_stored_prefix_is_reused(
    cache: PromptCacheView,
    tokens: Seq<u32>,
    above: int,
    below: int,
    b: int,
    file: FileView,
    reads: spec_fn(int) -> Option<Seq<u8>>,
    now: i128,
)
    requires
        tokens.len() <= usize::MAX,
        cache.index.entries.dom().finite(),
        above < b < below,
        cache.is_boundary(b, tokens.len() as int),
        is_usable(reads(b), tokens.take(b), cache.fingerprint, cache.layer_kinds),
    ensures
        ({
            let stored = PromptCacheView {
                index: cache.index.inserted(EntryKey::spec_of(tokens.take(b)), file),
                ..cache
            };
            looked_up(stored, tokens, above, below, reads, now).1 matches Some(found) && found >= b
        }),
{
    let key = EntryKey::spec_of(tokens.take(b));
    let stored = PromptCacheView { index: cache.index.inserted(key, file), ..cache };
    assert(stored.index.entries.dom() =~= cache.index.entries.dom().insert(key));
    a_lookup_finds_the_longest_usable_prefix(stored, tokens, above, below, reads, now);
    assert(usable_at(stored, tokens, b, reads));
}

/// An entry that was reused counts as used now, and so goes after every entry that
/// was used before; nothing else of the directory changes.
pub proof fn a_reused_entry_is_used_now(
    cache: PromptCacheView,
    key: EntryKey,
    boundary: usize,
    now: i128,
    other: EntryKey,
)
    requires
        cache.index.entries.contains_key(key),
    ensures
        ({
            let after = cache.reused(key, boundary, now).index;
            &&& after.entries.dom() == cache.index.entries.dom()
            &&& after.entries[key].used == now
            &&& after.entries[key].name == cache.index.entries[key].name
            &&& after.entries[key].bytes == cache.index.entries[key].bytes
            &&& other != key && cache.index.entries.contains_key(other) ==> after.entries[other]
                == cache.index.entries[other]
            &&& after.foreign == cache.index.foreign
            &&& after.bytes == cache.index.bytes
        }),
{
    let after = cache.reused(key, boundary, now).index;
    assert(after.entries.dom() =~= cache.index.entries.dom());
}

/// An entry that was forgotten or evicted is gone, and what it took with it; all
/// others stay as they are.
pub proof fn a_removed_entry_is_gone(cache: PromptCacheView, key: EntryKey, other: EntryKey)
    requires
        cache.index.entries.contains_key(key),
        cache.index.entries[key].bytes <= cache.index.bytes,
    ensures
        ({
            let after = cache.discarded(key).index;
            &&& !after.entries.contains_key(key)
            &&& other != key ==> (after.entries.contains_key(other)
                == cache.index.entries.contains_key(other))
            &&& other != key && cache.index.entries.contains_key(other) ==> after.entries[other]
                == cache.index.entries[other]
            &&& after.foreign == cache.index.foreign
            &&& after.bytes + cache.index.entries[key].bytes == cache.index.bytes
        }),
        forall|name: Seq<char>, bytes: u64, used: i128|
            (#[trigger] evicted(
                cache,
                CandidateView { used, key: Some(key), name, bytes },
            )).index == cache.discarded(key).index,
{
}

/// A file of another checkpoint that was evicted is gone, and what it took with it;
/// own entries stay.
pub proof fn a_removed_file_is_gone(cache: PromptCacheView, candidate: CandidateView, k: int)
    requires
        candidate.key is None,
        candidate.bytes <= cache.index.bytes,
        0 <= k < cache.index.foreign.len(),
    ensures
        ({
            let after = evicted(cache, candidate).index;
            &&& after.entries == cache.index.entries
            &&& after.bytes + candidate.bytes == cache.index.bytes
            &&& after.foreign.contains(cache.index.foreign[k]) <==> cache.index.foreign[k].name
                != candidate.name
        }),
{
    let keep = |f: FileView| f.name != candidate.name;
    let file = cache.index.foreign[k];
    let after = evicted(cache, candidate).index;
    if file.name != candidate.name {
        cache.index.foreign.lemma_filter_contains(keep, k);
    } else if after.foreign.contains(file) {
        let j = choose|j: int| 0 <= j < after.foreign.len() && after.foreign[j] == file;
        cache.index.foreign.lemma_filter_pred(keep, j);
    }
}

/// What was written is an entry used now, in place of what its key had.
pub proof fn a_written_entry_is_recorded(
    cache: PromptCacheView,
    key: EntryKey,
    file: FileView,
    other: EntryKey,
)
    ensures
        cache.index.inserted(key, file).entries.contains_key(key),
        cache.index.inserted(key, file).entries[key] == file,
        other != key ==> (cache.index.inserted(key, file).entries.contains_key(other)
            == cache.index.entries.contains_key(other)),
        other != key && cache.index.entries.contains_key(other) ==> cache.index.inserted(
            key,
            file,
        ).entries[other] == cache.index.entries[other],
        cache.index.inserted(key, file).foreign == cache.index.foreign,
{
}

} // verus!
