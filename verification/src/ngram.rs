//! n-gram (prompt-lookup) draft proposals.
//!
//! Speculation is only worth its verification cost when the draft itself is
//! nearly free. This drafter never runs a model: it keeps an incremental index
//! over the tokens already in context and, when the recent token tail repeats
//! an earlier tail, proposes the continuation that followed it last time. On a
//! miss it proposes nothing.
//!
//! Correctness never depends on the hash. A lookup compares the candidate's
//! token ids before proposing anything, so a colliding key produces a miss
//! rather than a wrong draft: see [`a_match_is_the_latest_repetition`].

use std::collections::HashMap;
use vstd::prelude::*;

verus! {

broadcast use vstd::std_specs::hash::group_hash_axioms;

/// n-gram lengths indexed incrementally. Longer keys are more selective, so a
/// lookup tries them longest-first.
pub const INDEXED_MATCH_LENGTHS: [usize; 3] = [4, 3, 2];

/// Longest key this index maintains.
pub const MAX_MATCH_LEN: usize = 4;

/// Shortest key this index maintains.
pub const MIN_MATCH_LEN: usize = 2;

/// Hash of the token ids forming one n-gram key.
pub trait TokenHasher {
    /// The key of a sequence of tokens.
    open spec fn key_of(&self, tokens: Seq<u32>) -> u64 {
        arbitrary()
    }

    /// Computes the key of a sequence of tokens.
    fn hash(&self, tokens: &[u32]) -> (key: u64)
        ensures
            key == self.key_of(tokens@),
    ;
}

/// FNV-1a over token ids: starting from the offset basis, every token is mixed
/// in by an exclusive or and a wrapping multiplication with the FNV prime.
pub open spec fn fnv1a(tokens: Seq<u32>) -> u64
    decreases tokens.len(),
{
    if tokens.len() == 0 {
        0xcbf2_9ce4_8422_2325
    } else {
        (fnv1a(tokens.drop_last()) ^ (tokens.last() as u64)).wrapping_mul(0x0000_0100_0000_01b3)
    }
}

/// FNV-1a over the raw token ids. Deterministic across runs and platforms,
/// which keeps drafting reproducible.
pub fn fnv1a_tokens(tokens: &[u32]) -> (hash: u64)
    ensures
        hash == fnv1a(tokens@),
{
    let mut hash: u64 = 0xcbf2_9ce4_8422_2325;
    let mut i: usize = 0;
    proof {
        assert(tokens@.take(0) =~= Seq::<u32>::empty());
    }
    while i < tokens.len()
        invariant
            i <= tokens@.len(),
            hash == fnv1a(tokens@.take(i as int)),
        decreases tokens@.len() - i,
    {
        proof {
            assert(tokens@.take(i + 1).drop_last() =~= tokens@.take(i as int));
        }
        hash = (hash ^ (tokens[i] as u64)).wrapping_mul(0x0000_0100_0000_01b3);
        i += 1;
    }
    proof {
        assert(tokens@.take(tokens@.len() as int) =~= tokens@);
    }
    hash
}

/// The default key hash.
#[derive(Debug, Clone, Copy)]
pub struct Fnv1a;

impl TokenHasher for Fnv1a {
    open spec fn key_of(&self, tokens: Seq<u32>) -> u64 {
        fnv1a(tokens)
    }

    fn hash(&self, tokens: &[u32]) -> (key: u64) {
        fnv1a_tokens(tokens)
    }
}

/// A hash under which all keys collide. With it a lookup has only the token
/// comparison to go by.
#[derive(Debug, Clone, Copy)]
pub struct Colliding {
    pub key: u64,
}

impl TokenHasher for Colliding {
    open spec fn key_of(&self, tokens: Seq<u32>) -> u64 {
        self.key
    }

    fn hash(&self, tokens: &[u32]) -> (key: u64) {
        self.key
    }
}

/// The `len` tokens that end at position `end`.
pub open spec fn gram(tokens: Seq<u32>, end: int, len: int) -> Seq<u32> {
    tokens.subrange(end + 1 - len, end + 1)
}

/// The last position before `before` at which a `len`-token key equal to `key`
/// ends.
pub open spec fn last_with_key<H: TokenHasher>(
    hasher: H,
    tokens: Seq<u32>,
    len: int,
    before: int,
    key: u64,
) -> Option<int>
    decreases before,
{
    if before < len || before <= 0 {
        None
    } else if hasher.key_of(gram(tokens, before - 1, len)) == key {
        Some(before - 1)
    } else {
        last_with_key(hasher, tokens, len, before - 1, key)
    }
}

/// The last position, before the end of the sequence, at which a key ends that
/// hashes as the `len`-token suffix does.
pub open spec fn candidate<H: TokenHasher>(hasher: H, tokens: Seq<u32>, len: int) -> Option<int> {
    last_with_key(
        hasher,
        tokens,
        len,
        tokens.len() - 1,
        hasher.key_of(gram(tokens, tokens.len() - 1, len)),
    )
}

/// The candidate, if its tokens are those of the suffix.
pub open spec fn verified_match<H: TokenHasher>(hasher: H, tokens: Seq<u32>, len: int) -> Option<
    int,
> {
    match candidate(hasher, tokens, len) {
        Some(c) => if gram(tokens, c, len) == gram(tokens, tokens.len() - 1, len) {
            Some(c)
        } else {
            None
        },
        None => None,
    }
}

/// Whether the index keeps keys of this length.
pub open spec fn is_indexed(len: int) -> bool {
    2 <= len <= 4
}

/// The longest indexed key length of at least `min` with a verified match.
pub open spec fn drafting_len<H: TokenHasher>(hasher: H, tokens: Seq<u32>, min: int) -> Option<
    int,
> {
    if verified_match(hasher, tokens, 4) is Some {
        Some(4int)
    } else if min <= 3 && verified_match(hasher, tokens, 3) is Some {
        Some(3int)
    } else if min <= 2 && verified_match(hasher, tokens, 2) is Some {
        Some(2int)
    } else {
        None
    }
}

/// Up to `count` tokens that follow position `source`.
pub open spec fn continuation(tokens: Seq<u32>, source: int, count: int) -> Seq<u32> {
    if source + 1 + count < tokens.len() {
        tokens.subrange(source + 1, source + 1 + count)
    } else {
        tokens.skip(source + 1)
    }
}

/// What [`last_with_key`] finds ends a key with that hash, and no later
/// position does; where it finds nothing, no position does.
pub proof fn lemma_last_with_key<H: TokenHasher>(
    hasher: H,
    tokens: Seq<u32>,
    len: int,
    before: int,
    key: u64,
)
    requires
        len >= 1,
        before <= tokens.len(),
    ensures
        match last_with_key(hasher, tokens, len, before, key) {
            Some(c) => {
                &&& len - 1 <= c < before
                &&& hasher.key_of(gram(tokens, c, len)) == key
                &&& forall|e: int|
                    c < e < before ==> hasher.key_of(#[trigger] gram(tokens, e, len)) != key
            },
            None => forall|e: int|
                len - 1 <= e < before ==> hasher.key_of(#[trigger] gram(tokens, e, len)) != key,
        },
    decreases before,
{
    if before < len || before <= 0 {
    } else if hasher.key_of(gram(tokens, before - 1, len)) == key {
    } else {
        lemma_last_with_key(hasher, tokens, len, before - 1, key);
    }
}

/// Appending a token changes nothing about the positions before it.
proof fn lemma_push_keeps_earlier<H: TokenHasher>(
    hasher: H,
    tokens: Seq<u32>,
    token: u32,
    len: int,
    before: int,
    key: u64,
)
    requires
        before <= tokens.len(),
        len >= 1,
    ensures
        last_with_key(hasher, tokens.push(token), len, before, key) == last_with_key(
            hasher,
            tokens,
            len,
            before,
            key,
        ),
    decreases before,
{
    if before < len || before <= 0 {
    } else {
        assert(gram(tokens.push(token), before - 1, len) =~= gram(tokens, before - 1, len));
        lemma_push_keeps_earlier(hasher, tokens, token, len, before - 1, key);
    }
}

/// A reported match is a genuine earlier occurrence of the current suffix and
/// the most recent one, whatever the hash does. Nothing is reported only where
/// the suffix did not occur before, or where a different key with the same hash
/// came later.
pub proof fn a_match_is_the_latest_repetition<H: TokenHasher>(
    hasher: H,
    tokens: Seq<u32>,
    len: int,
)
    requires
        is_indexed(len),
        tokens.len() >= len,
    ensures
        match verified_match(hasher, tokens, len) {
            Some(c) => {
                &&& len - 1 <= c < tokens.len() - 1
                &&& gram(tokens, c, len) == gram(tokens, tokens.len() - 1, len)
                &&& forall|e: int|
                    c < e < tokens.len() - 1 ==> #[trigger] gram(tokens, e, len) != gram(
                        tokens,
                        tokens.len() - 1,
                        len,
                    )
            },
            None => {
                ||| forall|e: int|
                    len - 1 <= e < tokens.len() - 1 ==> #[trigger] gram(tokens, e, len) != gram(
                        tokens,
                        tokens.len() - 1,
                        len,
                    )
                ||| exists|e: int|
                    {
                        &&& len - 1 <= e < tokens.len() - 1
                        &&& #[trigger] gram(tokens, e, len) != gram(tokens, tokens.len() - 1, len)
                        &&& hasher.key_of(gram(tokens, e, len)) == hasher.key_of(
                            gram(tokens, tokens.len() - 1, len),
                        )
                    }
            },
        },
{
    let suffix = gram(tokens, tokens.len() - 1, len);
    lemma_last_with_key(hasher, tokens, len, tokens.len() - 1, hasher.key_of(suffix));
}

/// With a hash that tells the keys of the sequence apart, a match is found if
/// and only if the suffix occurred before.
pub proof fn a_repetition_is_found_without_collisions<H: TokenHasher>(
    hasher: H,
    tokens: Seq<u32>,
    len: int,
)
    requires
        is_indexed(len),
        tokens.len() >= len,
        forall|a: int, b: int|
            len - 1 <= a < tokens.len() && len - 1 <= b < tokens.len() && hasher.key_of(
                #[trigger] gram(tokens, a, len),
            ) == hasher.key_of(#[trigger] gram(tokens, b, len)) ==> gram(tokens, a, len) == gram(
                tokens,
                b,
                len,
            ),
    ensures
        verified_match(hasher, tokens, len) is Some <==> exists|e: int|
            len - 1 <= e < tokens.len() - 1 && #[trigger] gram(tokens, e, len) == gram(
                tokens,
                tokens.len() - 1,
                len,
            ),
{
    a_match_is_the_latest_repetition(hasher, tokens, len);
    let c = verified_match(hasher, tokens, len);
    if c is Some {
        assert(gram(tokens, c->0, len) == gram(tokens, tokens.len() - 1, len));
    }
}

/// A draft proposal and the match that produced it.
#[derive(Debug, Clone, PartialEq, Eq)]
pub struct NgramDraft {
    pub tokens: Vec<u32>,
    /// Key length that matched.
    pub match_len: usize,
    /// Position of the last token of the earlier occurrence.
    pub source_position: usize,
    /// Whether a stop token truncated the proposal.
    pub truncated_at_stop: bool,
}

/// The keys of one length: where each of them last ended, and where the key of
/// the current suffix ended before that.
#[derive(Debug, Clone)]
struct Slot {
    ends: HashMap<u64, usize>,
    last_match: Option<usize>,
}

impl Slot {
    spec fn wf<H: TokenHasher>(&self, hasher: H, tokens: Seq<u32>, len: int) -> bool {
        &&& forall|key: u64|
            match last_with_key(hasher, tokens, len, tokens.len() as int, key) {
                Some(e) => #[trigger] self.ends@.contains_key(key) && self.ends@[key] == e,
                None => !self.ends@.contains_key(key),
            }
        &&& match candidate(hasher, tokens, len) {
            Some(e) => self.last_match == Some(e as usize) && 0 <= e < tokens.len(),
            None => self.last_match is None,
        }
    }

    fn new() -> (slot: Self)
        ensures
            forall|key: u64| !slot.ends@.contains_key(key),
            slot.last_match is None,
    {
        Slot { ends: HashMap::new(), last_match: None }
    }

    /// Enters the key that the token just appended completes.
    fn push<H: TokenHasher>(&mut self, hasher: &H, tokens: &Vec<u32>, len: usize)
        requires
            tokens@.len() >= 1,
            len >= 1,
            old(self).wf(*hasher, tokens@.drop_last(), len as int),
        ensures
            final(self).wf(*hasher, tokens@, len as int),
    {
        let ghost before = tokens@.drop_last();
        let ghost token = tokens@.last();
        let ghost key_of_suffix = hasher.key_of(gram(tokens@, tokens@.len() - 1, len as int));
        proof {
            assert(before.push(token) =~= tokens@);
            assert forall|key: u64| #![auto]
                last_with_key(*hasher, tokens@, len as int, tokens@.len() - 1, key)
                == last_with_key(*hasher, before, len as int, before.len() as int, key) by {
                lemma_push_keeps_earlier(
                    *hasher,
                    before,
                    token,
                    len as int,
                    before.len() as int,
                    key,
                );
            }
        }
        if tokens.len() < len {
            self.last_match = None;
            proof {
                assert(forall|key: u64|
                    last_with_key(*hasher, tokens@, len as int, tokens@.len() as int, key) is None);
                assert(forall|key: u64|
                    last_with_key(*hasher, before, len as int, before.len() as int, key) is None);
            }
            return;
        }
        let end: usize = tokens.len() - 1;
        let start: usize = tokens.len() - len;
        let key: u64 = hasher.hash(vstd::slice::slice_subrange(tokens.as_slice(), start, end + 1));
        proof {
            lemma_last_with_key(
                *hasher,
                before,
                len as int,
                before.len() as int,
                key,
            );
        }
        self.last_match = self.ends.insert(key, end);
        proof {
            assert(key == key_of_suffix);
        }
    }
}

/// Incremental n-gram index over the full token sequence in context.
///
/// One map per indexed key length holds the most recent position at which that
/// key ended, and the most recent occurrence before the current suffix, which
/// is exactly what a drafter standing at the end of the sequence needs; it is
/// filled during `push`, so a lookup is a slice comparison and nothing more.
#[derive(Debug, Clone)]
pub struct NgramIndex<H = Fnv1a> {
    tokens: Vec<u32>,
    four: Slot,
    three: Slot,
    two: Slot,
    hasher: H,
}

impl<H: TokenHasher> View for NgramIndex<H> {
    type V = Seq<u32>;

    closed spec fn view(&self) -> Seq<u32> {
        self.tokens@
    }
}

impl NgramIndex<Fnv1a> {
    /// An empty index that hashes keys with FNV-1a.
    pub fn new() -> (index: Self)
        ensures
            index.wf(),
            index@ == Seq::<u32>::empty(),
            index.key_hash() == Fnv1a,
    {
        Self::with_hasher(Fnv1a)
    }
}

impl<H: TokenHasher> NgramIndex<H> {
    /// The hash that the keys are entered under.
    pub closed spec fn key_hash(&self) -> H {
        self.hasher
    }

    /// The maps agree with the indexed tokens.
    pub closed spec fn wf(&self) -> bool {
        &&& self.four.wf(self.hasher, self.tokens@, 4)
        &&& self.three.wf(self.hasher, self.tokens@, 3)
        &&& self.two.wf(self.hasher, self.tokens@, 2)
    }

    /// Build an index with a custom key hash, for instance one that forces
    /// collisions.
    pub fn with_hasher(hasher: H) -> (index: Self)
        ensures
            index.wf(),
            index@ == Seq::<u32>::empty(),
            index.key_hash() == hasher,
    {
        NgramIndex {
            tokens: Vec::new(),
            four: Slot::new(),
            three: Slot::new(),
            two: Slot::new(),
            hasher,
        }
    }

    /// Forgets every token and every key.
    pub fn clear(&mut self)
        ensures
            final(self).wf(),
            final(self)@ == Seq::<u32>::empty(),
            final(self).key_hash() == old(self).key_hash(),
    {
        self.tokens.clear();
        self.four = Slot::new();
        self.three = Slot::new();
        self.two = Slot::new();
    }

    /// The indexed tokens.
    pub fn tokens(&self) -> (tokens: &[u32])
        ensures
            tokens@ == self@,
    {
        self.tokens.as_slice()
    }

    /// How many tokens are indexed.
    pub fn len(&self) -> (len: usize)
        ensures
            len == self@.len(),
    {
        self.tokens.len()
    }

    /// Whether nothing is indexed.
    pub fn is_empty(&self) -> (empty: bool)
        ensures
            empty == (self@.len() == 0),
    {
        self.tokens.len() == 0
    }

    /// Appends tokens one after another.
    pub fn extend(&mut self, tokens: &[u32])
        requires
            old(self).wf(),
        ensures
            final(self).wf(),
            final(self)@ == old(self)@ + tokens@,
            final(self).key_hash() == old(self).key_hash(),
    {
        let ghost before = self@;
        let mut i: usize = 0;
        while i < tokens.len()
            invariant
                self.wf(),
                self.key_hash() == old(self).key_hash(),
                i <= tokens@.len(),
                self@ == before + tokens@.take(i as int),
            decreases tokens@.len() - i,
        {
            self.push(tokens[i]);
            i += 1;
            proof {
                assert(before + tokens@.take(i as int) =~= (before + tokens@.take(i - 1)).push(
                    tokens@[i - 1],
                ));
            }
        }
        proof {
            assert(tokens@.take(tokens@.len() as int) =~= tokens@);
        }
    }

    /// Append one committed token. Constant work: one map insert per indexed
    /// key length.
    pub fn push(&mut self, token: u32)
        requires
            old(self).wf(),
        ensures
            final(self).wf(),
            final(self)@ == old(self)@.push(token),
            final(self).key_hash() == old(self).key_hash(),
    {
        self.tokens.push(token);
        proof {
            assert(self.tokens@.drop_last() =~= old(self).tokens@);
        }
        self.four.push(&self.hasher, &self.tokens, 4);
        self.three.push(&self.hasher, &self.tokens, 3);
        self.two.push(&self.hasher, &self.tokens, 2);
    }

    /// Most recent verified occurrence of the current `match_len`-token suffix,
    /// reported as the position of that occurrence's last token.
    ///
    /// Returns `None` when the key is absent, when the stored position lost a
    /// hash collision, or when the sequence is shorter than the key.
    pub fn most_recent_match(&self, match_len: usize) -> (position: Option<usize>)
        requires
            self.wf(),
        ensures
            match position {
                Some(c) => is_indexed(match_len as int) && verified_match(
                    self.key_hash(),
                    self@,
                    match_len as int,
                ) == Some(c as int) && c < self@.len() - 1,
                None => is_indexed(match_len as int) ==> verified_match(
                    self.key_hash(),
                    self@,
                    match_len as int,
                ) is None,
            },
    {
        let last: Option<usize> = if match_len == 4 {
            self.four.last_match
        } else if match_len == 3 {
            self.three.last_match
        } else if match_len == 2 {
            self.two.last_match
        } else {
            None
        };
        proof {
            if is_indexed(match_len as int) {
                lemma_last_with_key(
                    self.hasher,
                    self.tokens@,
                    match_len as int,
                    self.tokens@.len() - 1,
                    self.hasher.key_of(
                        gram(self.tokens@, self.tokens@.len() - 1, match_len as int),
                    ),
                );
            }
        }
        match last {
            None => None,
            Some(found) => {
                let count: usize = self.tokens.len();
                let shift: usize = count - 1 - found;
                let mut i: usize = found + 1 - match_len;
                let ghost first: int = found + 1 - match_len;
                while i <= found
                    invariant
                        first <= i <= found + 1,
                        first == found + 1 - match_len,
                        0 <= first,
                        match_len >= 1,
                        count == self.tokens@.len(),
                        found < self.tokens@.len() - 1,
                        shift == self.tokens@.len() - 1 - found,
                        candidate(self.hasher, self.tokens@, match_len as int) == Some(
                            found as int,
                        ),
                        is_indexed(match_len as int),
                        forall|j: int|
                            first <= j < i ==> self.tokens@[j] == #[trigger] self.tokens@[j
                                + shift],
                    decreases found + 1 - i,
                {
                    if self.tokens[i] != self.tokens[i + shift] {
                        proof {
                            let a = gram(self.tokens@, found as int, match_len as int);
                            let b = gram(
                                self.tokens@,
                                self.tokens@.len() - 1,
                                match_len as int,
                            );
                            assert(a[i - first] != b[i - first]);
                        }
                        return None;
                    }
                    i += 1;
                }
                proof {
                    let a = gram(self.tokens@, found as int, match_len as int);
                    let b = gram(self.tokens@, self.tokens@.len() - 1, match_len as int);
                    assert forall|k: int| 0 <= k < match_len implies a[k] == b[k] by {
                        assert(self.tokens@[first + k] == self.tokens@[first + k + shift]);
                    }
                    assert(a =~= b);
                }
                Some(found)
            },
        }
    }

    /// Propose up to `draft_len` continuation tokens for the current suffix.
    ///
    /// Key lengths are tried longest-first down to `min_match`; the first one
    /// with a verified match wins. The proposal is truncated at the first stop
    /// token it contains, keeping the tokens before it.
    pub fn draft<F: Fn(u32) -> bool>(
        &self,
        draft_len: usize,
        min_match: usize,
        is_stop: F,
    ) -> (draft: Option<NgramDraft>)
        requires
            self.wf(),
            forall|t: u32| #[trigger] call_requires(is_stop, (t,)),
        ensures
            match (draft_len, drafting_len(self.key_hash(), self@, min_match as int)) {
                (0, _) => draft is None,
                (_, None) => draft is None,
                (_, Some(len)) => {
                    let source = verified_match(self.key_hash(), self@, len)->0;
                    let following = continuation(self@, source, draft_len as int);
                    match draft {
                        Some(d) => {
                            &&& d.match_len == len
                            &&& d.source_position == source
                            &&& 0 < d.tokens@.len() <= following.len()
                            &&& d.tokens@ == following.take(d.tokens@.len() as int)
                            &&& forall|i: int|
                                0 <= i < d.tokens@.len() ==> call_ensures(
                                    is_stop,
                                    (#[trigger] following[i],),
                                    false,
                                )
                            &&& d.truncated_at_stop == (d.tokens@.len() < following.len())
                            &&& d.truncated_at_stop ==> call_ensures(
                                is_stop,
                                (following[d.tokens@.len() as int],),
                                true,
                            )
                        },
                        None => following.len() > 0 && call_ensures(is_stop, (following[0],), true),
                    }
                },
            },
    {
        if draft_len == 0 {
            return None;
        }
        let mut found: Option<(usize, usize)> = None;
        match self.most_recent_match(4) {
            Some(c) => {
                found = Some((4, c));
            },
            None => {
                if min_match <= 3 {
                    match self.most_recent_match(3) {
                        Some(c) => {
                            found = Some((3, c));
                        },
                        None => {
                            if min_match <= 2 {
                                match self.most_recent_match(2) {
                                    Some(c) => {
                                        found = Some((2, c));
                                    },
                                    None => {},
                                }
                            }
                        },
                    }
                }
            },
        }
        let (match_len, position): (usize, usize) = match found {
            None => {
                return None;
            },
            Some(pair) => pair,
        };
        let len: usize = self.tokens.len();
        let start: usize = position + 1;
        let count: usize = if draft_len < len - start {
            draft_len
        } else {
            len - start
        };
        let ghost following = continuation(self.tokens@, position as int, draft_len as int);
        proof {
            assert(following =~= self.tokens@.subrange(start as int, start + count));
        }
        let mut tokens: Vec<u32> = Vec::new();
        let mut stopped = false;
        let mut i: usize = 0;
        while i < count && !stopped
            invariant
                i <= count,
                count > 0,
                start + count <= len,
                len == self.tokens@.len(),
                following == self.tokens@.subrange(start as int, start + count),
                tokens@ == following.take(i as int),
                forall|t: u32| #[trigger] call_requires(is_stop, (t,)),
                forall|j: int|
                    0 <= j < i ==> call_ensures(is_stop, (#[trigger] following[j],), false),
                stopped ==> i < count && call_ensures(is_stop, (following[i as int],), true),
            decreases
                count - i + (if stopped {
                    0int
                } else {
                    1int
                }),
        {
            let token: u32 = self.tokens[start + i];
            if is_stop(token) {
                stopped = true;
            } else {
                tokens.push(token);
                i += 1;
                proof {
                    assert(following.take(i as int) =~= following.take(i - 1).push(token));
                }
            }
        }
        if tokens.len() == 0 {
            // The continuation begins with a stop token; there is nothing to
            // verify beyond what the target model will decide itself.
            return None;
        }
        Some(
            NgramDraft {
                tokens,
                match_len,
                source_position: position,
                truncated_at_stop: stopped,
            },
        )
    }
}

impl Default for NgramIndex<Fnv1a> {
    fn default() -> (index: Self)
        ensures
            index.wf(),
            index@ == Seq::<u32>::empty(),
            index.key_hash() == Fnv1a,
    {
        Self::new()
    }
}

/// What is drafted is what followed the earlier occurrence, token by token, as far
/// as it goes and no more than asked for.
pub proof fn a_draft_is_what_followed(tokens: Seq<u32>, source: int, count: int, i: int)
    requires
        0 <= source < tokens.len() - 1,
        0 <= count,
    ensures
        continuation(tokens, source, count).len() == if source + 1 + count < tokens.len() {
            count
        } else {
            tokens.len() - 1 - source
        },
        0 <= i < continuation(tokens, source, count).len() ==> continuation(
            tokens,
            source,
            count,
        )[i] == tokens[source + 1 + i],
{
}

/// A match repeats the last tokens: counted back from it, the tokens are those
/// counted back from the end.
pub proof fn a_match_repeats_the_last_tokens<H: TokenHasher>(
    hasher: H,
    tokens: Seq<u32>,
    len: int,
    back: int,
)
    requires
        is_indexed(len),
        tokens.len() >= len,
        0 <= back < len,
    ensures
        verified_match(hasher, tokens, len) matches Some(c) ==> tokens[c - back]
            == tokens[tokens.len() - 1 - back],
{
    a_match_is_the_latest_repetition(hasher, tokens, len);
    match verified_match(hasher, tokens, len) {
        Some(c) => {
            assert(gram(tokens, c, len)[len - 1 - back] == tokens[c - back]);
            assert(gram(tokens, tokens.len() - 1, len)[len - 1 - back] == tokens[tokens.len() - 1
                - back]);
        },
        None => {},
    }
}

/// The longest repetition drafts: of the lengths of two, three and four tokens, no
/// longer one has a match, and none is shorter than asked for, but four is always
/// tried. Nothing is drafted only where no length that is asked for has a match.
pub proof fn the_longest_repetition_drafts<H: TokenHasher>(
    hasher: H,
    tokens: Seq<u32>,
    min: int,
    other: int,
)
    requires
        2 <= other <= 4,
    ensures
        match drafting_len(hasher, tokens, min) {
            Some(len) => {
                &&& 2 <= len <= 4
                &&& len == 4 || len >= min
                &&& verified_match(hasher, tokens, len) is Some
                &&& other > len && other >= min ==> verified_match(hasher, tokens, other) is None
            },
            None => other >= min || other == 4 ==> verified_match(hasher, tokens, other) is None,
        },
{
}

/// One more token changes the hash by an exclusive or and a multiplication, modulo
/// the numbers of 64 bits.
pub proof fn a_hash_takes_one_token_after_the_other(tokens: Seq<u32>, token: u32)
    ensures
        fnv1a(Seq::empty()) == 14695981039346656037u64,
        fnv1a(tokens.push(token)) as int == ((fnv1a(tokens) ^ (token as u64)) as int
            * 1099511628211) % 0x1_0000_0000_0000_0000,
{
    assert(tokens.push(token).drop_last() =~= tokens);
}

} // verus!
