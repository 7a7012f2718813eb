//! The cache as a state machine. It decides which file to read, what a read
//! file is worth, where to store and what to evict; the caller performs the
//! file operations and reports how they went.

use crate::prompt_cache::format::{
    archive_fits, archive_metadata, archive_tensors, archive_writable, entry_image, entry_tokens,
    first_wins, image_matches, image_metadata, image_rows, read, read_header, EntryError,
    EntryHeader, EntryProblem, LayerKind,
};
use crate::prompt_cache::index::{
    candidate_views, covers, foreign_candidate, in_eviction_order, leftovers, only_evictable,
    other_checkpoints_go_first, own_candidate, scan, scanned, the_least_recently_used_goes_first, Candidate, CandidateView, EntryMeta, FileView, FoundFile, Index,
    IndexView,
};
use crate::prompt_cache::keys::{
    boundaries, entry_name, highest_boundary, is_boundary, store_boundary, store_ceiling, EntryKey,
};
use crate::qwen::model_state::SessionImage;
use vstd::prelude::*;

verus! {

/// Default token boundary entries are stored at. A miss costs at most this
/// many re-prefilled tokens, and a smaller block means more distinct entries
/// for the same conversation.
pub const DEFAULT_BLOCK_TOKENS: usize = 256;

/// Default shortest prefix worth an entry. Below this the fixed recurrent
/// state dominates the file and the prefill it saves is not worth the write.
pub const DEFAULT_MIN_TOKENS: usize = 512;

/// Default disk budget before least-recently-used entries are removed.
pub const DEFAULT_BUDGET_MIB: u64 = 20 * 1024;

/// Where the cache lives and how much it may take.
#[derive(Debug, Clone, PartialEq, Eq)]
pub struct PromptCacheConfig {
    pub dir: String,
    pub budget_bytes: u64,
    pub block_tokens: usize,
    pub min_tokens: usize,
}

/// Why a cache configuration is not accepted.
#[derive(Debug, Clone, Copy, PartialEq, Eq, Structural)]
pub enum CacheConfigError {
    /// The block size must be at least one token.
    EmptyBlock,
    /// The shortest cached prefix must be at least one block.
    MinimumBelowBlock { min: usize, block: usize },
}

impl PromptCacheConfig {
    /// The default sizes for a directory.
    pub fn new(dir: String) -> (config: Self)
        ensures
            config.dir == dir,
            config.budget_bytes == 20 * 1024 * 1024 * 1024,
            config.block_tokens == DEFAULT_BLOCK_TOKENS,
            config.min_tokens == DEFAULT_MIN_TOKENS,
    {
        PromptCacheConfig {
            dir,
            budget_bytes: DEFAULT_BUDGET_MIB * 1024 * 1024,
            block_tokens: DEFAULT_BLOCK_TOKENS,
            min_tokens: DEFAULT_MIN_TOKENS,
        }
    }

    /// What is wrong with a configuration.
    pub open spec fn problem(&self) -> Option<CacheConfigError> {
        if self.block_tokens == 0 {
            Some(CacheConfigError::EmptyBlock)
        } else if self.min_tokens < self.block_tokens {
            Some(
                CacheConfigError::MinimumBelowBlock {
                    min: self.min_tokens,
                    block: self.block_tokens,
                },
            )
        } else {
            None
        }
    }

    /// Accepts a positive block size and a minimum of at least one block.
    pub fn validate(&self) -> (result: Result<(), CacheConfigError>)
        ensures
            match result {
                Ok(_) => self.problem() is None,
                Err(error) => self.problem() == Some(error),
            },
    {
        if self.block_tokens == 0 {
            return Err(CacheConfigError::EmptyBlock);
        }
        if self.min_tokens < self.block_tokens {
            return Err(
                CacheConfigError::MinimumBelowBlock {
                    min: self.min_tokens,
                    block: self.block_tokens,
                },
            );
        }
        Ok(())
    }
}

/// What the cache has counted. Counts wrap around.
#[derive(Debug, Clone, Copy, PartialEq, Eq, Structural)]
pub struct Counters {
    pub hits: u64,
    pub misses: u64,
    pub reused_tokens: u64,
    pub writes: u64,
    pub write_skips: u64,
    pub evictions: u64,
    pub failures: u64,
}

/// What the cache reports about itself, for health checks and the logs.
#[derive(Debug, Clone, Copy, PartialEq, Eq, Structural)]
pub struct PromptCacheStats {
    pub entries: usize,
    pub bytes: u64,
    pub budget_bytes: u64,
    pub hits: u64,
    pub misses: u64,
    pub reused_tokens: u64,
    pub writes: u64,
    pub write_skips: u64,
    pub evictions: u64,
    pub failures: u64,
}

/// A cache directory of one checkpoint.
#[derive(Debug)]
pub struct PromptCache {
    config: PromptCacheConfig,
    fingerprint: String,
    quantization: String,
    layer_kinds: Vec<LayerKind>,
    index: Index,
    counters: Counters,
    /// Writes queued or in flight, so a shutdown can wait for them.
    outstanding: usize,
}

/// Contents of a cache.
pub ghost struct PromptCacheView {
    pub budget_bytes: u64,
    pub block_tokens: usize,
    pub min_tokens: usize,
    pub fingerprint: Seq<char>,
    pub quantization: Seq<char>,
    pub layer_kinds: Seq<LayerKind>,
    pub index: IndexView,
    pub counters: Counters,
    pub outstanding: usize,
}

impl View for PromptCache {
    type V = PromptCacheView;

    closed spec fn view(&self) -> PromptCacheView {
        PromptCacheView {
            budget_bytes: self.config.budget_bytes,
            block_tokens: self.config.block_tokens,
            min_tokens: self.config.min_tokens,
            fingerprint: self.fingerprint@,
            quantization: self.quantization@,
            layer_kinds: self.layer_kinds@,
            index: self.index@,
            counters: self.counters,
            outstanding: self.outstanding,
        }
    }
}

impl PromptCacheView {
    /// Whether an entry may be looked up from token `b` of a prompt.
    pub open spec fn is_boundary(self, b: int, len: int) -> bool {
        is_boundary(b, len, self.block_tokens as int, self.min_tokens as int)
    }

    /// The highest boundary of a prompt that is not above a ceiling, if any.
    pub open spec fn highest_boundary(self, len: int, ceiling: int) -> Option<int> {
        highest_boundary(len, ceiling, self.block_tokens as int, self.min_tokens as int)
    }

    /// Whether the first `b` tokens of a prompt have an entry, going by their
    /// key.
    pub open spec fn is_indexed(self, tokens: Seq<u32>, b: int) -> bool {
        self.index.entries.contains_key(EntryKey::spec_of(tokens.take(b)))
    }

    /// The cache after an unusable entry was forgotten.
    pub open spec fn discarded(self, key: EntryKey) -> PromptCacheView {
        PromptCacheView {
            index: self.index.removed(key),
            counters: Counters { failures: self.counters.failures.wrapping_add(1), ..self.counters },
            ..self
        }
    }

    /// The cache after a lookup found nothing.
    pub open spec fn missed(self) -> PromptCacheView {
        PromptCacheView {
            counters: Counters { misses: self.counters.misses.wrapping_add(1), ..self.counters },
            ..self
        }
    }

    /// The cache after an entry was reused.
    pub open spec fn reused(self, key: EntryKey, boundary: usize, now: i128) -> PromptCacheView {
        PromptCacheView {
            index: if self.index.entries.contains_key(key) {
                IndexView {
                    entries: self.index.entries.insert(
                        key,
                        FileView { used: now, ..self.index.entries[key] },
                    ),
                    ..self.index
                }
            } else {
                self.index
            },
            counters: Counters {
                hits: self.counters.hits.wrapping_add(1),
                reused_tokens: self.counters.reused_tokens.wrapping_add(boundary as u64),
                ..self.counters
            },
            ..self
        }
    }
}

/// A lookup under way: the lengths that an entry of interest lies between.
#[derive(Debug, Clone, Copy, PartialEq, Eq, Structural)]
pub struct Lookup {
    /// What the caller can already continue from without reading anything, so
    /// a shorter entry is never loaded just to throw the longer prefix away.
    pub above: usize,
    /// Where the file read last turned out unusable, or beyond every prompt at
    /// first.
    pub below: usize,
}

impl Lookup {
    /// A lookup that has read nothing yet.
    pub fn new(above: usize) -> (lookup: Lookup)
        ensures
            lookup == (Lookup { above, below: usize::MAX }),
    {
        Lookup { above, below: usize::MAX }
    }
}

/// The next file that a lookup wants to read.
#[derive(Debug, Clone, PartialEq, Eq)]
pub struct Probe {
    /// How many tokens of the prompt the entry covers.
    pub boundary: usize,
    pub key: EntryKey,
    pub name: String,
}

/// How handing an image to the writer went.
#[derive(Debug, Clone, Copy, PartialEq, Eq, Structural)]
pub enum Handover {
    Accepted,
    /// A write is already in flight.
    Busy,
    /// The writer is gone.
    Gone,
}

/// What to do next while waiting for writes to land.
#[derive(Debug, Clone, Copy, PartialEq, Eq, Structural)]
pub enum Drain {
    /// Every write has ended.
    Done,
    /// The time is up with work still outstanding.
    Expired,
    /// Look again in a moment.
    Wait,
}

/// Whether the content of a file is a usable entry for a prefix: it holds
/// exactly these tokens and the state of a model with these layers.
pub open spec fn is_usable(
    content: Option<Seq<u8>>,
    prefix: Seq<u32>,
    fingerprint: Seq<char>,
    kinds: Seq<LayerKind>,
) -> bool {
    &&& content is Some
    &&& entry_tokens(content->0, fingerprint) == Ok::<_, EntryProblem>(prefix)
    &&& entry_image(content->0, fingerprint, kinds) is Ok
}

/// An image that is read from an entry holds the tokens of its header.
proof fn lemma_image_tokens(bytes: Seq<u8>, fingerprint: Seq<char>, kinds: Seq<LayerKind>)
    requires
        entry_image(bytes, fingerprint, kinds) is Ok,
    ensures
        entry_tokens(bytes, fingerprint) == Ok::<_, EntryProblem>(
            entry_image(bytes, fingerprint, kinds)->Ok_0.tokens,
        ),
{
}

impl PromptCache {
    /// Every key of the index has one entry.
    pub closed spec fn wf(&self) -> bool {
        self.index.wf()
    }

    /// A cache knows finitely many entries.
    pub proof fn entries_are_finite(&self)
        requires
            self.wf(),
        ensures
            self@.index.entries.dom().finite(),
    {
        self.index.entries_are_finite();
    }

    /// Open a cache directory for one checkpoint, given the files found in it.
    /// Also names the half-written files, which are to be removed.
    ///
    /// Entries written by another checkpoint or another format version stay on
    /// disk and count against the budget, but are never read.
    pub fn open(
        config: PromptCacheConfig,
        fingerprint: &str,
        quantization: &str,
        layer_kinds: Vec<LayerKind>,
        files: &Vec<FoundFile>,
    ) -> (result: Result<(PromptCache, Vec<String>), CacheConfigError>)
        ensures
            match result {
                Ok((cache, half_written)) => {
                    let found = Seq::new(files@.len(), |i: int| files@[i]@);
                    &&& config.problem() is None
                    &&& cache.wf()
                    &&& cache@ == (PromptCacheView {
                        budget_bytes: config.budget_bytes,
                        block_tokens: config.block_tokens,
                        min_tokens: config.min_tokens,
                        fingerprint: fingerprint@,
                        quantization: quantization@,
                        layer_kinds: layer_kinds@,
                        index: scanned(found, found.len() as int, fingerprint@),
                        counters: Counters {
                            hits: 0,
                            misses: 0,
                            reused_tokens: 0,
                            writes: 0,
                            write_skips: 0,
                            evictions: 0,
                            failures: 0,
                        },
                        outstanding: 0,
                    })
                    &&& Seq::new(half_written@.len(), |i: int| half_written@[i]@) == leftovers(
                        found,
                        found.len() as int,
                    )
                },
                Err(error) => config.problem() == Some(error),
            },
    {
        match config.validate() {
            Ok(_) => {},
            Err(error) => {
                return Err(error);
            },
        }
        let (index, half_written) = scan(files, fingerprint);
        let cache = PromptCache {
            config,
            fingerprint: fingerprint.to_owned(),
            quantization: quantization.to_owned(),
            layer_kinds,
            index,
            counters: Counters {
                hits: 0,
                misses: 0,
                reused_tokens: 0,
                writes: 0,
                write_skips: 0,
                evictions: 0,
                failures: 0,
            },
            outstanding: 0,
        };
        Ok((cache, half_written))
    }

    /// The distance between boundaries.
    pub fn block_tokens(&self) -> (block: usize)
        ensures
            block == self@.block_tokens,
    {
        self.config.block_tokens
    }

    /// The shortest prefix worth an entry.
    pub fn min_tokens(&self) -> (min: usize)
        ensures
            min == self@.min_tokens,
    {
        self.config.min_tokens
    }

    /// The name of the file that holds the entry of a key.
    pub fn entry_path(&self, key: &EntryKey) -> (name: Option<String>)
        requires
            self.wf(),
        ensures
            match name {
                Some(name) => self@.index.entries.contains_key(*key)
                    && self@.index.entries[*key].name == name@,
                None => !self@.index.entries.contains_key(*key),
            },
    {
        match self.index.get(key) {
            Some(meta) => Some(meta.name),
            None => None,
        }
    }

    /// The name that an entry of a key is written under.
    pub fn path_for(&self, key: &EntryKey) -> (name: String)
        ensures
            name@ == entry_name(*key, self@.fingerprint),
    {
        key.file_name(self.fingerprint.as_str())
    }

    /// The file to read next for the longest cached prefix of `tokens`, within
    /// the lengths of a lookup. Where there is none, the lookup has missed,
    /// which is counted.
    pub fn lookup(&mut self, tokens: &[u32], lookup: &Lookup) -> (probe: Option<Probe>)
        requires
            old(self).wf(),
        ensures
            final(self).wf(),
            match probe {
                Some(p) => {
                    &&& final(self)@ == old(self)@
                    &&& old(self)@.is_boundary(p.boundary as int, tokens@.len() as int)
                    &&& lookup.above < p.boundary < lookup.below
                    &&& p.key == EntryKey::spec_of(tokens@.take(p.boundary as int))
                    &&& old(self)@.index.entries.contains_key(p.key)
                    &&& old(self)@.index.entries[p.key].name == p.name@
                    &&& forall|b: int| #[trigger]
                        old(self)@.is_boundary(b, tokens@.len() as int) && p.boundary < b
                            < lookup.below ==> !old(self)@.is_indexed(tokens@, b)
                },
                None => {
                    &&& final(self)@ == old(self)@.missed()
                    &&& forall|b: int| #[trigger]
                        old(self)@.is_boundary(b, tokens@.len() as int) && lookup.above < b
                            < lookup.below ==> !old(self)@.is_indexed(tokens@, b)
                },
            },
    {
        let probe = self.next_probe(tokens, lookup.above, lookup.below);
        if probe.is_none() {
            self.counters.misses = self.counters.misses.wrapping_add(1);
        }
        probe
    }

    /// The longest indexed prefix of `tokens` that is longer than `above` tokens
    /// and shorter than `below`.
    fn next_probe(&self, tokens: &[u32], above: usize, below: usize) -> (probe: Option<Probe>)
        requires
            self.wf(),
        ensures
            match probe {
                Some(p) => {
                    &&& self@.is_boundary(p.boundary as int, tokens@.len() as int)
                    &&& above < p.boundary < below
                    &&& p.key == EntryKey::spec_of(tokens@.take(p.boundary as int))
                    &&& self@.index.entries.contains_key(p.key)
                    &&& self@.index.entries[p.key].name == p.name@
                    &&& forall|b: int| #[trigger]
                        self@.is_boundary(b, tokens@.len() as int) && p.boundary < b < below
                            ==> !self@.is_indexed(tokens@, b)
                },
                None => forall|b: int| #[trigger]
                    self@.is_boundary(b, tokens@.len() as int) && above < b < below
                        ==> !self@.is_indexed(tokens@, b),
            },
    {
        let found = boundaries(tokens.len(), self.config.block_tokens, self.config.min_tokens);
        let mut i: usize = 0;
        while i < found.len()
            invariant
                self.wf(),
                i <= found@.len(),
                forall|i: int|
                    0 <= i < found@.len() ==> is_boundary(
                        #[trigger] found@[i] as int,
                        tokens@.len() as int,
                        self@.block_tokens as int,
                        self@.min_tokens as int,
                    ),
                forall|b: int| #[trigger]
                    is_boundary(
                        b,
                        tokens@.len() as int,
                        self@.block_tokens as int,
                        self@.min_tokens as int,
                    ) ==> found@.contains(b as usize),
                forall|i: int, j: int| 0 <= i < j < found@.len() ==> found@[i] > found@[j],
                forall|j: int|
                    0 <= j < i && #[trigger] found@[j] < below ==> !self@.is_indexed(
                        tokens@,
                        found@[j] as int,
                    ),
                forall|j: int| 0 <= j < i ==> #[trigger] found@[j] > above,
            decreases found@.len() - i,
        {
            let boundary: usize = found[i];
            proof {
                assert(is_boundary(
                    found@[i as int] as int,
                    tokens@.len() as int,
                    self@.block_tokens as int,
                    self@.min_tokens as int,
                ));
            }
            if boundary <= above {
                proof {
                    assert forall|b: int| #[trigger]
                        self@.is_boundary(b, tokens@.len() as int) && above < b
                            < below implies !self@.is_indexed(tokens@, b) by {
                        let j = choose|j: int| 0 <= j < found@.len() && found@[j] == b as usize;
                        assert(found@[j] == b as usize);
                    }
                }
                return None;
            }
            if boundary < below {
                let prefix = vstd::slice::slice_subrange(tokens, 0, boundary);
                proof {
                    assert(prefix@ =~= tokens@.take(boundary as int));
                }
                let key = EntryKey::of(prefix);
                match self.entry_path(&key) {
                    Some(name) => {
                        proof {
                            assert forall|b: int| #[trigger]
                                self@.is_boundary(b, tokens@.len() as int) && boundary < b
                                    < below implies !self@.is_indexed(tokens@, b) by {
                                let j = choose|j: int|
                                    0 <= j < found@.len() && found@[j] == b as usize;
                                assert(found@[j] == b as usize);
                            }
                        }
                        return Some(Probe { boundary, key, name });
                    },
                    None => {},
                }
            }
            i += 1;
        }
        proof {
            assert forall|b: int| #[trigger]
                self@.is_boundary(b, tokens@.len() as int) && above < b
                    < below implies !self@.is_indexed(tokens@, b) by {
                let j = choose|j: int| 0 <= j < found@.len() && found@[j] == b as usize;
                assert(found@[j] == b as usize);
            }
        }
        None
    }

    /// Concludes a lookup step. A header that holds exactly the prefix and an
    /// image that could be read make a hit; anything else forgets the entry,
    /// and its file is to be removed.
    pub fn conclude_lookup(
        &mut self,
        probe: &Probe,
        prefix: &[u32],
        header: Option<EntryHeader>,
        image: Option<SessionImage<u32>>,
        now: i128,
    ) -> (hit: Option<SessionImage<u32>>)
        requires
            old(self).wf(),
        ensures
            final(self).wf(),
            if header is Some && header->0.tokens@ == prefix@ && image is Some {
                &&& hit == image
                &&& final(self)@ == old(self)@.reused(probe.key, probe.boundary, now)
            } else {
                &&& hit is None
                &&& final(self)@ == old(self)@.discarded(probe.key)
            },
    {
        let same: bool = match &header {
            Some(header) => same_tokens(header.tokens.as_slice(), prefix),
            None => false,
        };
        if same {
            match image {
                Some(image) => {
                    self.index.touch(&probe.key, now);
                    self.counters.hits = self.counters.hits.wrapping_add(1);
                    self.counters.reused_tokens =
                    self.counters.reused_tokens.wrapping_add(probe.boundary as u64);
                    return Some(image);
                },
                None => {},
            }
        }
        self.counters.failures = self.counters.failures.wrapping_add(1);
        let _ = self.index.remove(&probe.key);
        None
    }

    /// Judges the file that a lookup asked for. `content` is what the file
    /// holds, or nothing where it could not be read.
    ///
    /// The stored token ids are compared exactly before any state is read, so
    /// a hash collision costs one header read rather than a wrong answer: what
    /// is returned holds exactly the first `probe.boundary` tokens. Where
    /// nothing is returned the entry is forgotten, its file is to be removed,
    /// and the lookup goes on below it.
    pub fn lookup_result(
        &mut self,
        tokens: &[u32],
        lookup: &mut Lookup,
        probe: &Probe,
        content: Option<&[u8]>,
        now: i128,
    ) -> (hit: Option<SessionImage<u32>>)
        requires
            old(self).wf(),
            probe.boundary <= tokens@.len(),
        ensures
            final(self).wf(),
            ({
                let bytes = match content {
                    Some(bytes) => Some(bytes@),
                    None => None,
                };
                let prefix = tokens@.take(probe.boundary as int);
                let usable = is_usable(
                    bytes,
                    prefix,
                    old(self)@.fingerprint,
                    old(self)@.layer_kinds,
                );
                &&& hit is Some == usable
                &&& *final(lookup) == (if usable {
                    *old(lookup)
                } else {
                    Lookup { below: probe.boundary, ..*old(lookup) }
                })
                &&& usable ==> {
                    &&& entry_image(bytes->0, old(self)@.fingerprint, old(self)@.layer_kinds)
                        == Ok::<_, EntryProblem>(hit->0@)
                    &&& hit->0@.tokens == prefix
                    &&& final(self)@ == old(self)@.reused(probe.key, probe.boundary, now)
                }
                &&& !usable ==> final(self)@ == old(self)@.discarded(probe.key)
            }),
    {
        let prefix = vstd::slice::slice_subrange(tokens, 0, probe.boundary);
        proof {
            assert(prefix@ =~= tokens@.take(probe.boundary as int));
        }
        let mut header: Option<EntryHeader> = None;
        let mut image: Option<SessionImage<u32>> = None;
        match content {
            None => {},
            Some(bytes) => {
                match read_header(bytes, self.fingerprint.as_str()) {
                    Err(_) => {},
                    Ok(found) => {
                        if same_tokens(found.tokens.as_slice(), prefix) {
                            match read(
                                bytes,
                                self.fingerprint.as_str(),
                                self.layer_kinds.as_slice(),
                            ) {
                                Ok(found) => {
                                    proof {
                                        lemma_image_tokens(
                                            bytes@,
                                            self@.fingerprint,
                                            self@.layer_kinds,
                                        );
                                    }
                                    image = Some(found);
                                },
                                Err(_) => {},
                            }
                        }
                        header = Some(found);
                    },
                }
            },
        }
        let hit = self.conclude_lookup(probe, prefix, header, image, now);
        if hit.is_none() {
            lookup.below = probe.boundary;
        }
        hit
    }

    /// Where this request should leave an entry, given what it already reused
    /// and how much of its prompt is expected to recur (`stable`).
    ///
    /// `None` means there is nothing new worth storing: the prompt is too
    /// short, the reused prefix already covers the highest usable boundary, or
    /// that boundary is already on disk.
    pub fn store_boundary(&self, tokens: &[u32], reused: usize, stable: Option<usize>) -> (boundary:
        Option<usize>)
        requires
            self.wf(),
        ensures
            ({
                let highest = self@.highest_boundary(
                    tokens@.len() as int,
                    store_ceiling(tokens@.len() as int, stable),
                );
                match boundary {
                    Some(b) => highest == Some(b as int) && b > reused && !self@.is_indexed(
                        tokens@,
                        b as int,
                    ),
                    None => highest is None || highest->0 <= reused || self@.is_indexed(
                        tokens@,
                        highest->0,
                    ),
                }
            }),
    {
        match store_boundary(
            tokens.len(),
            reused,
            stable,
            self.config.block_tokens,
            self.config.min_tokens,
        ) {
            None => None,
            Some(boundary) => {
                let prefix = vstd::slice::slice_subrange(tokens, 0, boundary);
                proof {
                    assert(prefix@ =~= tokens@.take(boundary as int));
                }
                let key = EntryKey::of(prefix);
                if self.entry_path(&key).is_none() {
                    Some(boundary)
                } else {
                    None
                }
            },
        }
    }

    /// Accounts for an image that is to be stored. Returns false when a write is
    /// already in flight, or the writer did not take this one, and it was
    /// dropped.
    ///
    /// An image is handed over only while the cache is idle: a queued image is
    /// a whole state copy held in memory, and the request it came from has
    /// already finished. One that was accepted counts as outstanding until
    /// [`PromptCache::write_finished`].
    pub fn store(&mut self, handover: Handover) -> (accepted: bool)
        requires
            old(self).wf(),
        ensures
            final(self).wf(),
            accepted == (old(self)@.outstanding == 0 && handover == Handover::Accepted),
            final(self)@ == (PromptCacheView {
                outstanding: if accepted {
                    1
                } else {
                    old(self)@.outstanding
                },
                counters: Counters {
                    write_skips: if accepted {
                        old(self)@.counters.write_skips
                    } else {
                        old(self)@.counters.write_skips.wrapping_add(1)
                    },
                    ..old(self)@.counters
                },
                ..old(self)@
            }),
    {
        if self.outstanding == 0 && handover == Handover::Accepted {
            self.outstanding = 1;
            true
        } else {
            self.counters.write_skips = self.counters.write_skips.wrapping_add(1);
            false
        }
    }

    /// The name and the content of the file that stores an image.
    pub fn prepare_write(&self, image: &SessionImage<u32>, created_unix: u64) -> (file: Result<
        (String, Vec<u8>),
        EntryError,
    >)
        requires
            archive_fits(image_rows(image@)),
        ensures
            file is Ok == archive_writable(
                image_rows(image@),
                image_metadata(image@, self@.fingerprint, self@.quantization, created_unix),
            ),
            match file {
                Ok((name, bytes)) => {
                    &&& name@ == entry_name(
                        EntryKey::spec_of(image@.tokens),
                        self@.fingerprint,
                    )
                    &&& archive_tensors(bytes@) == Some(first_wins(image_rows(image@)))
                    &&& archive_metadata(bytes@) == Some(
                        Some(
                            first_wins(
                                image_metadata(
                                    image@,
                                    self@.fingerprint,
                                    self@.quantization,
                                    created_unix,
                                ),
                            ),
                        ),
                    )
                    &&& image_matches(image@, self@.layer_kinds) ==> is_usable(
                        Some(bytes@),
                        image@.tokens,
                        self@.fingerprint,
                        self@.layer_kinds,
                    ) && entry_image(bytes@, self@.fingerprint, self@.layer_kinds) == Ok::<
                        _,
                        EntryProblem,
                    >(image@)
                },
                Err(error) => error@ == EntryProblem::Unreadable,
            },
    {
        let key = EntryKey::of(image.tokens.as_slice());
        let name = self.path_for(&key);
        match crate::prompt_cache::format::write(
            image,
            self.fingerprint.as_str(),
            self.quantization.as_str(),
            created_unix,
        ) {
            Ok(bytes) => Ok((name, bytes)),
            Err(error) => Err(error),
        }
    }

    /// Records an entry file of `bytes` bytes that was written for `tokens`.
    /// The directory may now be over budget; the key is what eviction keeps.
    pub fn written(&mut self, tokens: &[u32], bytes: u64, now: i128) -> (key: EntryKey)
        requires
            old(self).wf(),
        ensures
            final(self).wf(),
            key == EntryKey::spec_of(tokens@),
            final(self)@ == (PromptCacheView {
                index: old(self)@.index.inserted(
                    key,
                    FileView {
                        name: entry_name(key, old(self)@.fingerprint),
                        bytes,
                        used: now,
                    },
                ),
                counters: Counters {
                    writes: old(self)@.counters.writes.wrapping_add(1),
                    ..old(self)@.counters
                },
                ..old(self)@
            }),
    {
        let key = EntryKey::of(tokens);
        let name = self.path_for(&key);
        self.index.insert(key, EntryMeta { name, bytes, used: now });
        self.counters.writes = self.counters.writes.wrapping_add(1);
        key
    }

    /// Accounts for a write that has ended, well or not.
    pub fn write_finished(&mut self, failed: bool)
        requires
            old(self).wf(),
        ensures
            final(self).wf(),
            final(self)@ == (PromptCacheView {
                outstanding: old(self)@.outstanding.wrapping_sub(1),
                counters: Counters {
                    failures: if failed {
                        old(self)@.counters.failures.wrapping_add(1)
                    } else {
                        old(self)@.counters.failures
                    },
                    ..old(self)@.counters
                },
                ..old(self)@
            }),
    {
        if failed {
            self.counters.failures = self.counters.failures.wrapping_add(1);
        }
        self.outstanding = self.outstanding.wrapping_sub(1);
    }

    /// Whether all writes that were queued have ended.
    pub fn is_idle(&self) -> (idle: bool)
        ensures
            idle == (self@.outstanding == 0),
    {
        self.outstanding == 0
    }

    /// How to go on waiting for queued writes, given whether the time is up.
    ///
    /// A request that has just paid for a long prefill has its entry in the
    /// writer's hands, not on disk; without waiting, a shutdown throws that
    /// work away.
    pub fn drain_step(&self, expired: bool) -> (step: Drain)
        ensures
            step == (if self@.outstanding == 0 {
                Drain::Done
            } else if expired {
                Drain::Expired
            } else {
                Drain::Wait
            }),
    {
        if self.is_idle() {
            Drain::Done
        } else if expired {
            Drain::Expired
        } else {
            Drain::Wait
        }
    }

    /// What the cache reports about itself.
    pub fn stats(&self) -> (stats: PromptCacheStats)
        requires
            self.wf(),
        ensures
            stats.entries == self@.index.entries.dom().len(),
            stats.bytes == self@.index.bytes,
            stats.budget_bytes == self@.budget_bytes,
            stats.hits == self@.counters.hits,
            stats.misses == self@.counters.misses,
            stats.reused_tokens == self@.counters.reused_tokens,
            stats.writes == self@.counters.writes,
            stats.write_skips == self@.counters.write_skips,
            stats.evictions == self@.counters.evictions,
            stats.failures == self@.counters.failures,
    {
        PromptCacheStats {
            entries: self.index.len(),
            bytes: self.index.total(),
            budget_bytes: self.config.budget_bytes,
            hits: self.counters.hits,
            misses: self.counters.misses,
            reused_tokens: self.counters.reused_tokens,
            writes: self.counters.writes,
            write_skips: self.counters.write_skips,
            evictions: self.counters.evictions,
            failures: self.counters.failures,
        }
    }

    /// Whether the directory takes more than its budget.
    pub open spec fn over_budget(view: PromptCacheView) -> bool {
        view.index.bytes > view.budget_bytes
    }

    /// Begins to remove least-recently-used entries until the directory fits
    /// the budget.
    ///
    /// `keep` is the entry that was just written: evicting it would discard
    /// the prefill this request paid for and leave the cache no warmer.
    pub fn begin_eviction(&self, keep: Option<EntryKey>) -> (eviction: Eviction)
        requires
            self.wf(),
        ensures
            eviction.next == 0,
            in_eviction_order(candidate_views(eviction.candidates@)),
            covers(candidate_views(eviction.candidates@), 0, self@.index, keep),
            only_evictable(candidate_views(eviction.candidates@), self@.index, keep),
    {
        Eviction { candidates: self.index.eviction_candidates(keep), next: 0 }
    }

    /// The file to remove next; nothing once the directory fits the budget or
    /// no file is left that may go.
    pub fn eviction_target(&self, eviction: &Eviction) -> (name: Option<String>)
        ensures
            match name {
                Some(name) => {
                    &&& PromptCache::over_budget(self@)
                    &&& eviction.next < eviction.candidates@.len()
                    &&& name@ == eviction.candidates@[eviction.next as int].name@
                },
                None => !PromptCache::over_budget(self@) || eviction.next
                    >= eviction.candidates@.len(),
            },
    {
        if self.index.total() <= self.config.budget_bytes {
            return None;
        }
        if eviction.next < eviction.candidates.len() {
            Some(eviction.candidates[eviction.next].name.clone())
        } else {
            None
        }
    }

    /// Goes on after trying to remove the file that was asked for. A file that
    /// could not be removed stays in the index.
    pub fn eviction_result(&mut self, eviction: &mut Eviction, removed: bool)
        requires
            old(self).wf(),
            old(eviction).next < old(eviction).candidates@.len(),
        ensures
            final(self).wf(),
            final(eviction).candidates == old(eviction).candidates,
            final(eviction).next == old(eviction).next + 1,
            final(self)@ == (if removed {
                evicted(old(self)@, old(eviction).candidates@[old(eviction).next as int]@)
            } else {
                old(self)@
            }),
    {
        let total: usize = eviction.candidates.len();
        if removed {
            match eviction.candidates[eviction.next].key {
                Some(key) => {
                    let _ = self.index.remove(&key);
                },
                None => {
                    self.index.remove_foreign(
                        eviction.candidates[eviction.next].name.as_str(),
                        eviction.candidates[eviction.next].bytes,
                    );
                },
            }
            self.counters.evictions = self.counters.evictions.wrapping_add(1);
        }
        eviction.next = eviction.next + 1;
    }
}

/// An eviction under way: the files that may go, in order, and how many of
/// them were tried.
#[derive(Debug, Clone)]
pub struct Eviction {
    pub candidates: Vec<Candidate>,
    pub next: usize,
}

/// The cache after the file of a candidate was removed.
pub open spec fn evicted(cache: PromptCacheView, candidate: CandidateView) -> PromptCacheView {
    PromptCacheView {
        index: match candidate.key {
            Some(key) => cache.index.removed(key),
            None => cache.index.without_foreign(candidate.name, candidate.bytes),
        },
        counters: Counters {
            evictions: cache.counters.evictions.wrapping_add(1),
            ..cache.counters
        },
        ..cache
    }
}

/// Every file that was removed leaves the list of the files that may still go
/// complete.
pub proof fn eviction_covers_what_is_left(
    cache: PromptCacheView,
    candidates: Seq<CandidateView>,
    next: int,
    keep: Option<EntryKey>,
)
    requires
        0 <= next < candidates.len(),
        covers(candidates, next, cache.index, keep),
    ensures
        covers(candidates, next + 1, evicted(cache, candidates[next]).index, keep),
{
    let candidate = candidates[next];
    let before = cache.index;
    let after = evicted(cache, candidate).index;
    assert forall|key: EntryKey| #[trigger]
        after.entries.contains_key(key) && Some(key) != keep implies exists|i: int|
        next + 1 <= i < candidates.len() && #[trigger] candidates[i] == own_candidate(
            key,
            after.entries[key],
        ) by {
        assert(before.entries.contains_key(key));
        let i = choose|i: int|
            next <= i < candidates.len() && #[trigger] candidates[i] == own_candidate(
                key,
                before.entries[key],
            );
        assert(candidates[i] == own_candidate(key, before.entries[key]));
    }
    assert forall|k: int| 0 <= k < after.foreign.len() implies exists|i: int|
        next + 1 <= i < candidates.len() && #[trigger] candidates[i] == foreign_candidate(
            #[trigger] after.foreign[k],
        ) by {
        let file = after.foreign[k];
        if candidate.key is None {
            let keep_file = |f: FileView| f.name != candidate.name;
            before.foreign.lemma_filter_contains_rev(keep_file, file);
            assert(keep_file(file)) by {
                before.foreign.lemma_filter_pred(keep_file, k);
            }
        }
        assert(before.foreign.contains(file));
        let j = choose|j: int| 0 <= j < before.foreign.len() && before.foreign[j] == file;
        assert(before.foreign[j] == file);
        let i = choose|i: int|
            next <= i < candidates.len() && #[trigger] candidates[i] == foreign_candidate(
                before.foreign[j],
            );
        assert(candidates[i] == foreign_candidate(file));
    }
}

/// An own entry is asked for only once nothing of another checkpoint is left, and
/// no entry is left that was used earlier, but for the one to keep.
pub proof fn an_eviction_takes_the_least_recently_used(
    cache: PromptCacheView,
    candidates: Seq<CandidateView>,
    next: int,
    keep: Option<EntryKey>,
)
    requires
        0 <= next < candidates.len(),
        in_eviction_order(candidates),
        covers(candidates, next, cache.index, keep),
        candidates[next].key is Some,
    ensures
        cache.index.foreign.len() == 0,
        forall|key: EntryKey| #[trigger]
            cache.index.entries.contains_key(key) && Some(key) != keep
                ==> cache.index.entries[key].used >= candidates[next].used,
{
    if cache.index.foreign.len() > 0 {
        let i = choose|i: int|
            next <= i < candidates.len() && #[trigger] candidates[i] == foreign_candidate(
                cache.index.foreign[0],
            );
        other_checkpoints_go_first(candidates, i, next);
    }
    assert forall|key: EntryKey| #[trigger]
        cache.index.entries.contains_key(key) && Some(key)
            != keep implies cache.index.entries[key].used >= candidates[next].used by {
        let i = choose|i: int|
            next <= i < candidates.len() && #[trigger] candidates[i] == own_candidate(
                key,
                cache.index.entries[key],
            );
        the_least_recently_used_goes_first(candidates, next, i);
    }
}

/// Nothing is evicted from a directory that takes no more than its budget.
pub proof fn a_directory_within_budget_loses_nothing(cache: PromptCacheView)
    ensures
        cache.index.bytes <= cache.budget_bytes <==> !PromptCache::over_budget(cache),
{
}

/// The entry to keep is never asked for, and what is asked for is in the
/// directory.
pub proof fn an_eviction_keeps_what_was_written(
    cache: PromptCacheView,
    candidates: Seq<CandidateView>,
    keep: EntryKey,
    i: int,
)
    requires
        0 <= i < candidates.len(),
        only_evictable(candidates, cache.index, Some(keep)),
    ensures
        candidates[i].key != Some(keep),
        match candidates[i].key {
            Some(key) => cache.index.entries.contains_key(key) && cache.index.entries[key].name
                == candidates[i].name && cache.index.entries[key].bytes == candidates[i].bytes,
            None => exists|k: int|
                0 <= k < cache.index.foreign.len() && (#[trigger] cache.index.foreign[k]).name
                    == candidates[i].name && cache.index.foreign[k].bytes == candidates[i].bytes,
        },
{
}

/// Once no file is asked for any more and all that were asked for are gone,
/// the directory fits its budget, unless nothing but the entry to keep is left.
pub proof fn eviction_keeps_the_directory_under_budget(
    cache: PromptCacheView,
    candidates: Seq<CandidateView>,
    next: int,
    keep: Option<EntryKey>,
)
    requires
        covers(candidates, next, cache.index, keep),
        !PromptCache::over_budget(cache) || next >= candidates.len(),
    ensures
        cache.index.bytes <= cache.budget_bytes || {
            &&& cache.index.foreign.len() == 0
            &&& forall|key: EntryKey| #[trigger]
                cache.index.entries.contains_key(key) ==> Some(key) == keep
        },
{
    if PromptCache::over_budget(cache) {
        if cache.index.foreign.len() > 0 {
            let f = cache.index.foreign[0];
        }
    }
}

/// A prefix that was written is found again: whatever prompt goes on from it,
/// its boundary is one that a lookup tries, and its entry is indexed there.
pub proof fn a_written_prefix_is_indexed_again(
    cache: PromptCacheView,
    prompt: Seq<u32>,
    b: int,
    file: FileView,
)
    requires
        cache.is_boundary(b, prompt.len() as int),
    ensures
        (PromptCacheView {
            index: cache.index.inserted(EntryKey::spec_of(prompt.take(b)), file),
            ..cache
        }).is_indexed(prompt, b),
{
}

/// Another checkpoint's entries are never read: a file is usable for one
/// checkpoint at most.
pub proof fn an_entry_belongs_to_one_checkpoint(
    bytes: Seq<u8>,
    fingerprint: Seq<char>,
    other: Seq<char>,
    prefix: Seq<u32>,
    other_prefix: Seq<u32>,
    kinds: Seq<LayerKind>,
    other_kinds: Seq<LayerKind>,
)
    requires
        is_usable(Some(bytes), prefix, fingerprint, kinds),
        is_usable(Some(bytes), other_prefix, other, other_kinds),
    ensures
        fingerprint == other,
{
}

/// Whether two sequences of tokens are equal.
fn same_tokens(a: &[u32], b: &[u32]) -> (same: bool)
    ensures
        same == (a@ == b@),
{
    if a.len() != b.len() {
        return false;
    }
    let mut i: usize = 0;
    while i < a.len()
        invariant
            a@.len() == b@.len(),
            i <= a@.len(),
            forall|j: int| 0 <= j < i ==> a@[j] == b@[j],
        decreases a@.len() - i,
    {
        if a[i] != b[i] {
            return false;
        }
        i += 1;
    }
    proof {
        assert(a@ =~= b@);
    }
    true
}

} // verus!
