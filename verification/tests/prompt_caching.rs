use std::collections::BTreeMap;

use qwen_engine::limits::is_storable;
use qwen_engine::prompt_cache::format::{read, read_header, EntryError};
use qwen_engine::prompt_cache::{
    boundaries, is_entry, parse_file_name, short_fingerprint, store_boundary, CacheConfigError,
    Drain, EntryKey, FoundFile, Handover, LayerKind, Lookup, PromptCache, PromptCacheConfig,
};
use qwen_engine::qwen::{
    LayerStateImage, QuantizedAttentionImage, QuantizedDeltaCheckpoint, QuantizedStateImage,
    SessionImage,
};

/// Floats by their bits, as an entry holds them.
fn bits(values: &[f32]) -> Vec<u32> {
    values.iter().map(|value| value.to_bits()).collect()
}

fn described(position: usize) -> SessionImage<u32> {
    let keys: Vec<f32> = (0..position * 4).map(|v| v as f32).collect();
    let values: Vec<f32> = (0..position * 4).map(|v| -(v as f32)).collect();
    SessionImage {
        tokens: (0..position as u32).map(|t| t * 7 + 1).collect(),
        model: QuantizedStateImage {
            layers: vec![
                LayerStateImage::Linear(QuantizedDeltaCheckpoint::from_parts(
                    bits(&[0.5, -0.25]),
                    bits(&[1.5, 2.5, 3.5]),
                )),
                LayerStateImage::Full(QuantizedAttentionImage {
                    keys: bits(&keys),
                    values: bits(&values),
                    positions: position,
                }),
            ],
            position,
        },
        mtp: Some(QuantizedAttentionImage {
            keys: bits(&vec![1.; position * 4]),
            values: bits(&vec![2.; position * 4]),
            positions: position,
        }),
        last_target_hidden: Some(bits(&[0.125, 0.25, 0.375])),
    }
}

fn kinds() -> Vec<LayerKind> {
    vec![LayerKind::Linear, LayerKind::Full { stride: 4 }]
}

#[test]
fn round_trips_an_entry() {
    let written = described(6);
    let bytes = qwen_engine::prompt_cache::format::write(&written, "fnv1a64:abc", "Q4K", 12).expect("write");
    assert!(!bytes.is_empty());
    let read_back = read(&bytes, "fnv1a64:abc", &kinds()).expect("read");
    assert_eq!(read_back, written);
    let header = read_header(&bytes, "fnv1a64:abc").expect("header");
    assert_eq!(header.tokens, written.tokens);
    assert_eq!(header.position, 6);
}

#[test]
fn round_trips_without_optional_sections() {
    let mut written = described(3);
    written.mtp = None;
    written.last_target_hidden = None;
    let bytes = qwen_engine::prompt_cache::format::write(&written, "fnv1a64:abc", "Q4K", 0).expect("write");
    assert_eq!(read(&bytes, "fnv1a64:abc", &kinds()).expect("read"), written);
}

#[test]
fn rejects_another_checkpoints_entry() {
    let bytes = qwen_engine::prompt_cache::format::write(&described(4), "fnv1a64:abc", "Q4K", 0).expect("write");
    let error = read(&bytes, "fnv1a64:def", &kinds()).expect_err("wrong checkpoint");
    assert_eq!(
        error.message("entry", "fnv1a64:def"),
        "entry belongs to checkpoint fnv1a64:abc, not fnv1a64:def"
    );
    assert!(read_header(&bytes, "fnv1a64:def").is_err());
}

#[test]
fn rejects_a_different_layer_sequence() {
    let bytes = qwen_engine::prompt_cache::format::write(&described(4), "fnv1a64:abc", "Q4K", 0).expect("write");
    assert!(read(&bytes, "fnv1a64:abc", &[LayerKind::Linear]).is_err());
    let swapped = [LayerKind::Full { stride: 4 }, LayerKind::Linear];
    assert!(read(&bytes, "fnv1a64:abc", &swapped).is_err());
    // Same layer sequence, different KV width: the entry belongs to a model
    // this one is not.
    let wider = [LayerKind::Linear, LayerKind::Full { stride: 8 }];
    let error = read(&bytes, "fnv1a64:abc", &wider).expect_err("wrong stride");
    let message = error.message("entry", "fnv1a64:abc");
    assert!(message.contains("key/value elements"), "{message}");
    assert_eq!(
        message,
        "entry layer 1 holds 16/16 key/value elements, this model needs 32"
    );
}

#[test]
fn rejects_a_truncated_file() {
    let bytes = qwen_engine::prompt_cache::format::write(&described(4), "fnv1a64:abc", "Q4K", 0).expect("write");
    assert!(read(&bytes[..bytes.len() / 2], "fnv1a64:abc", &kinds()).is_err());
}

#[test]
fn recognises_entry_paths() {
    assert!(is_entry("a-1-2.inferq-prompt"));
    assert!(!is_entry("a-1-2.writing"));
    assert!(!is_entry("notes.txt"));
}

#[test]
fn each_error_of_an_entry_names_what_is_wrong() {
    let bytes = qwen_engine::prompt_cache::format::write(&described(4), "fnv1a64:abc", "Q4K", 0).expect("write");
    let said = |kinds: &[LayerKind]| {
        read(&bytes, "fnv1a64:abc", kinds)
            .expect_err("refused")
            .message("e", "fnv1a64:abc")
    };
    assert_eq!(said(&[LayerKind::Linear]), "e holds 2 layers, the model has 1");
    assert_eq!(
        said(&[LayerKind::Full { stride: 4 }, LayerKind::Linear]),
        "e is missing `layer.0.keys`"
    );
    assert_eq!(
        read(b"not an archive", "fnv1a64:abc", &kinds())
            .expect_err("refused")
            .message("e", ""),
        "e is not a readable entry"
    );
    assert!(matches!(
        read_header(b"", "fnv1a64:abc"),
        Err(EntryError::Unreadable(_))
    ));
}

#[test]
fn every_position_of_an_entry_survives_the_file() {
    for position in [0, 1, 2, 17] {
        let written = described(position);
        let bytes = qwen_engine::prompt_cache::format::write(&written, "c", "F32", u64::MAX).expect("write");
        assert_eq!(read(&bytes, "c", &kinds()).expect("read"), written);
    }
}

#[test]
fn a_nan_keeps_its_bits() {
    let mut written = described(1);
    written.last_target_hidden = Some(vec![0x7fc0_0001, 0xffff_ffff, 0x8000_0000]);
    let bytes = qwen_engine::prompt_cache::format::write(&written, "c", "F32", 0).expect("write");
    assert_eq!(read(&bytes, "c", &kinds()).expect("read"), written);
}

fn collected(len: usize, block: usize, min: usize) -> Vec<usize> {
    boundaries(len, block, min)
}

#[test]
fn boundaries_are_multiples_below_the_prompt() {
    assert_eq!(collected(1000, 256, 256), vec![768, 512, 256]);
    // A prompt that ends exactly on a boundary cannot use that boundary: a
    // restored session still needs a token to produce logits from.
    assert_eq!(collected(768, 256, 256), vec![512, 256]);
    assert_eq!(collected(769, 256, 256), vec![768, 512, 256]);
    assert_eq!(collected(300, 256, 256), vec![256]);
    assert!(collected(256, 256, 256).is_empty());
    assert!(collected(0, 256, 256).is_empty());
}

#[test]
fn boundaries_respect_the_minimum() {
    assert_eq!(
        collected(3000, 256, 1024),
        vec![2816, 2560, 2304, 2048, 1792, 1536, 1280, 1024]
    );
    assert!(collected(1000, 256, 1024).is_empty());
}

#[test]
fn store_boundary_advances_past_what_was_reused() {
    assert_eq!(store_boundary(1000, 0, None, 256, 256), Some(768));
    assert_eq!(store_boundary(1000, 768, None, 256, 256), None);
    assert_eq!(store_boundary(1000, 700, None, 256, 256), Some(768));
    assert_eq!(store_boundary(1000, 500, None, 256, 256), Some(768));
    assert_eq!(store_boundary(400, 0, None, 256, 512), None);
}

#[test]
fn store_boundary_stays_inside_the_stable_prefix() {
    // The last turn of this prompt starts at token 700, so an entry at 768
    // would be keyed on tokens no later request repeats.
    assert_eq!(store_boundary(1000, 0, Some(700), 256, 256), Some(512));
    assert_eq!(store_boundary(1000, 512, Some(700), 256, 256), None);
    // A stable prefix beyond the prompt is simply no constraint.
    assert_eq!(store_boundary(1000, 0, Some(5000), 256, 256), Some(768));
    // Too little stable text to reach the minimum: nothing is stored.
    assert_eq!(store_boundary(1000, 0, Some(100), 256, 256), None);
}

#[test]
fn file_names_round_trip() {
    let key = EntryKey {
        tokens: 4096,
        hash: 0x1234_5678_9abc_def0,
    };
    let name = key.file_name("fnv1a64:7ae605bb0922e4ef");
    assert_eq!(
        name,
        "7ae605bb0922e4ef-00004096-123456789abcdef0.inferq-prompt"
    );
    let parsed = parse_file_name(&name, "fnv1a64:7ae605bb0922e4ef");
    assert_eq!(parsed, Some(key));
    assert_eq!(parse_file_name(&name, "fnv1a64:other"), None);
    assert_eq!(parse_file_name("junk.inferq-prompt", "fnv1a64:x"), None);
}

#[test]
fn a_fingerprint_is_shortened_behind_its_scheme() {
    assert_eq!(short_fingerprint("fnv1a64:7ae605bb0922e4ef"), "7ae605bb0922e4ef");
    assert_eq!(short_fingerprint("plain"), "plain");
}

fn image(tokens: &[u32]) -> SessionImage<u32> {
    let position = tokens.len();
    SessionImage {
        tokens: tokens.to_vec(),
        model: QuantizedStateImage {
            layers: vec![
                LayerStateImage::Linear(QuantizedDeltaCheckpoint::from_parts(
                    bits(&[0.25; 4]),
                    bits(&[0.5; 8]),
                )),
                LayerStateImage::Full(QuantizedAttentionImage {
                    keys: bits(&vec![1.; position * 2]),
                    values: bits(&vec![2.; position * 2]),
                    positions: position,
                }),
            ],
            position,
        },
        mtp: None,
        last_target_hidden: None,
    }
}

/// A directory in memory, and a clock that moves on with every operation.
#[derive(Default)]
struct Directory {
    files: BTreeMap<String, (Vec<u8>, i128)>,
    now: i128,
}

impl Directory {
    fn tick(&mut self) -> i128 {
        self.now += 1;
        self.now
    }

    fn found(&self) -> Vec<FoundFile> {
        self.files
            .iter()
            .map(|(name, (bytes, modified))| FoundFile {
                name: name.clone(),
                is_file: true,
                bytes: bytes.len() as u64,
                modified: *modified,
            })
            .collect()
    }

    fn open(&mut self, fingerprint: &str, budget_bytes: u64) -> PromptCache {
        let (cache, half_written) = PromptCache::open(
            PromptCacheConfig {
                dir: "cache".into(),
                budget_bytes,
                block_tokens: 4,
                min_tokens: 4,
            },
            fingerprint,
            "Q4K",
            vec![LayerKind::Linear, LayerKind::Full { stride: 2 }],
            &self.found(),
        )
        .expect("open the cache");
        for name in half_written {
            self.files.remove(&name);
        }
        cache
    }

    /// What the writer thread does with one image.
    fn store(&mut self, cache: &mut PromptCache, image: SessionImage<u32>) {
        assert!(is_storable(&image));
        assert!(cache.store(Handover::Accepted));
        assert!(!cache.is_idle());
        let now = self.tick();
        let (name, bytes) = cache.prepare_write(&image, 0).expect("prepare");
        let size = bytes.len() as u64;
        self.files.insert(name, (bytes, now));
        let key = cache.written(&image.tokens, size, now);
        let mut eviction = cache.begin_eviction(Some(key));
        while let Some(name) = cache.eviction_target(&eviction) {
            let removed = self.files.remove(&name).is_some();
            cache.eviction_result(&mut eviction, removed);
        }
        cache.write_finished(false);
        assert!(cache.is_idle());
    }

    /// What a request does to find its longest cached prefix.
    fn lookup(
        &mut self,
        cache: &mut PromptCache,
        tokens: &[u32],
        above: usize,
    ) -> Option<SessionImage<u32>> {
        let mut lookup = Lookup::new(above);
        while let Some(probe) = cache.lookup(tokens, &lookup) {
            let now = self.tick();
            let content = self.files.get(&probe.name).map(|(bytes, _)| bytes.clone());
            match cache.lookup_result(tokens, &mut lookup, &probe, content.as_deref(), now) {
                Some(image) => return Some(image),
                None => {
                    self.files.remove(&probe.name);
                }
            }
        }
        None
    }
}

#[test]
fn stores_and_reuses_the_longest_matching_prefix() {
    let mut directory = Directory::default();
    let mut cache = directory.open("fnv1a64:abc", 1 << 30);
    let tokens: Vec<u32> = (0..20).collect();
    assert_eq!(cache.store_boundary(&tokens, 0, None), Some(16));
    directory.store(&mut cache, image(&tokens[..16]));
    assert!(cache.stats().entries >= 1);

    // A later prompt that shares the first sixteen tokens restores them.
    let mut next = tokens[..16].to_vec();
    next.extend([99, 98, 97]);
    let restored = directory.lookup(&mut cache, &next, 0).expect("hit");
    assert_eq!(restored.tokens, tokens[..16]);
    assert_eq!(restored.position(), 16);
    assert_eq!(cache.stats().hits, 1);
    // That boundary is now on disk, so nothing new is stored for it.
    assert_eq!(cache.store_boundary(&next, 16, None), None);
}

#[test]
fn a_divergent_prefix_misses() {
    let mut directory = Directory::default();
    let mut cache = directory.open("fnv1a64:abc", 1 << 30);
    let tokens: Vec<u32> = (0..20).collect();
    directory.store(&mut cache, image(&tokens[..16]));
    let other: Vec<u32> = (100..120).collect();
    assert!(directory.lookup(&mut cache, &other, 0).is_none());
    assert_eq!(cache.stats().misses, 1);
}

#[test]
fn survives_a_restart() {
    let mut directory = Directory::default();
    let tokens: Vec<u32> = (0..20).collect();
    {
        let mut cache = directory.open("fnv1a64:abc", 1 << 30);
        directory.store(&mut cache, image(&tokens[..16]));
    }
    let mut reopened = directory.open("fnv1a64:abc", 1 << 30);
    assert_eq!(reopened.stats().entries, 1);
    assert!(directory.lookup(&mut reopened, &tokens, 0).is_some());
}

#[test]
fn another_checkpoints_entries_are_never_read() {
    let mut directory = Directory::default();
    let tokens: Vec<u32> = (0..20).collect();
    {
        let mut cache = directory.open("fnv1a64:abc", 1 << 30);
        directory.store(&mut cache, image(&tokens[..16]));
    }
    let mut other = directory.open("fnv1a64:different", 1 << 30);
    assert_eq!(other.stats().entries, 0);
    assert!(directory.lookup(&mut other, &tokens, 0).is_none());
    assert!(other.stats().bytes > 0, "foreign entries still cost budget");
}

#[test]
fn eviction_keeps_the_directory_under_budget() {
    let mut directory = Directory::default();
    let mut cache = directory.open("fnv1a64:abc", 1 << 30);
    let first: Vec<u32> = (0..8).collect();
    directory.store(&mut cache, image(&first));
    let entry_bytes = cache.stats().bytes;

    // Reopen with room for a single entry and add a second one.
    drop(cache);
    let mut cache = directory.open("fnv1a64:abc", entry_bytes + 1);
    let second: Vec<u32> = (100..108).collect();
    directory.store(&mut cache, image(&second));
    let stats = cache.stats();
    assert_eq!(stats.evictions, 1, "{stats:?}");
    assert!(stats.bytes <= entry_bytes + 1, "{stats:?}");
    // A prompt that extends the second entry still restores it, and the first
    // entry's prefix no longer resolves.
    let mut extends_second = second.clone();
    extends_second.extend([200, 201]);
    assert!(directory.lookup(&mut cache, &extends_second, 0).is_some(), "{stats:?}");
    let mut extends_first = first.clone();
    extends_first.extend([200, 201]);
    assert!(directory.lookup(&mut cache, &extends_first, 0).is_none(), "{stats:?}");
}

#[test]
fn a_corrupt_entry_is_discarded_rather_than_returned() {
    let mut directory = Directory::default();
    let mut cache = directory.open("fnv1a64:abc", 1 << 30);
    let tokens: Vec<u32> = (0..20).collect();
    directory.store(&mut cache, image(&tokens[..16]));
    let name = EntryKey::of(&tokens[..16]).file_name("fnv1a64:abc");
    directory
        .files
        .insert(name.clone(), (b"not a safetensors file".to_vec(), 0));
    assert!(directory.lookup(&mut cache, &tokens, 0).is_none());
    assert!(
        !directory.files.contains_key(&name),
        "the unusable entry was removed"
    );
    assert_eq!(cache.stats().failures, 1);
}

#[test]
fn rejects_a_minimum_below_one_block() {
    let open = |block_tokens, min_tokens| {
        PromptCache::open(
            PromptCacheConfig {
                dir: "cache".into(),
                budget_bytes: 1 << 20,
                block_tokens,
                min_tokens,
            },
            "fnv1a64:abc",
            "Q4K",
            vec![LayerKind::Full { stride: 2 }],
            &vec![],
        )
        .map(|_| ())
    };
    assert!(open(256, 128).is_err());
    assert_eq!(
        open(256, 128),
        Err(CacheConfigError::MinimumBelowBlock { min: 128, block: 256 })
    );
    assert_eq!(open(0, 128), Err(CacheConfigError::EmptyBlock));
    assert_eq!(open(128, 128), Ok(()));
}

#[test]
fn a_lookup_never_returns_less_than_what_is_there() {
    let mut directory = Directory::default();
    let mut cache = directory.open("fnv1a64:abc", 1 << 30);
    let tokens: Vec<u32> = (0..20).collect();
    directory.store(&mut cache, image(&tokens[..8]));
    assert!(directory.lookup(&mut cache, &tokens, 8).is_none());
    assert_eq!(
        directory.lookup(&mut cache, &tokens, 4).expect("hit").tokens,
        tokens[..8]
    );
    directory.store(&mut cache, image(&tokens[..12]));
    assert_eq!(
        directory.lookup(&mut cache, &tokens, 0).expect("hit").tokens,
        tokens[..12]
    );
}

#[test]
fn a_busy_or_gone_writer_skips() {
    let mut directory = Directory::default();
    let mut cache = directory.open("fnv1a64:abc", 1 << 30);
    assert!(!cache.store(Handover::Busy));
    assert!(cache.is_idle());
    assert!(!cache.store(Handover::Gone));
    assert!(cache.is_idle());
    assert_eq!(cache.stats().write_skips, 2);
    assert!(cache.store(Handover::Accepted));
    cache.write_finished(true);
    assert_eq!(cache.stats().failures, 1);
    assert!(cache.is_idle());
}

#[test]
fn an_image_is_dropped_while_a_write_is_in_flight() {
    let mut directory = Directory::default();
    let mut cache = directory.open("fnv1a64:abc", 1 << 30);
    assert!(cache.store(Handover::Accepted));
    for skips in 1..4 {
        assert!(!cache.store(Handover::Accepted));
        assert_eq!(cache.stats().write_skips, skips);
    }
    // One write was in flight, so one end makes the cache idle.
    cache.write_finished(false);
    assert!(cache.is_idle());
    assert!(cache.store(Handover::Accepted));
    assert_eq!(cache.stats().write_skips, 3);
}

#[test]
fn waiting_ends_with_the_writes_or_with_the_time() {
    let mut directory = Directory::default();
    let mut cache = directory.open("fnv1a64:abc", 1 << 30);
    assert_eq!(cache.drain_step(false), Drain::Done);
    assert_eq!(cache.drain_step(true), Drain::Done);
    assert!(cache.store(Handover::Accepted));
    assert_eq!(cache.drain_step(false), Drain::Wait);
    assert_eq!(cache.drain_step(true), Drain::Expired);
    cache.write_finished(false);
    assert_eq!(cache.drain_step(true), Drain::Done);
}

#[test]
fn a_lookup_counts_one_hit_or_miss_and_every_entry_it_forgets() {
    let mut directory = Directory::default();
    let mut cache = directory.open("fnv1a64:abc", 1 << 30);
    let tokens: Vec<u32> = (0..20).collect();
    for len in [4, 8, 12, 16] {
        directory.store(&mut cache, image(&tokens[..len]));
    }
    for len in [12, 16] {
        let name = EntryKey::of(&tokens[..len]).file_name("fnv1a64:abc");
        directory.files.get_mut(&name).expect("stored").0 = vec![0];
    }
    let before = cache.stats();
    let hit = directory.lookup(&mut cache, &tokens, 0).expect("hit");
    assert_eq!(hit.tokens, tokens[..8]);
    let after = cache.stats();
    assert_eq!(after.hits, before.hits + 1);
    assert_eq!(after.misses, before.misses);
    assert_eq!(after.reused_tokens, before.reused_tokens + 8);
    assert_eq!(after.failures, before.failures + 2);
    assert_eq!(after.entries, before.entries - 2);

    assert!(directory.lookup(&mut cache, &tokens, 8).is_none());
    let last = cache.stats();
    assert_eq!(last.misses, after.misses + 1);
    assert_eq!((last.hits, last.reused_tokens), (after.hits, after.reused_tokens));
    assert_eq!((last.failures, last.entries), (after.failures, after.entries));
}

#[test]
fn another_checkpoints_files_are_reclaimed_first() {
    let mut directory = Directory::default();
    let own: Vec<u32> = (0..8).collect();
    {
        let mut cache = directory.open("fnv1a64:abc", 1 << 30);
        directory.store(&mut cache, image(&own));
        let mut other = directory.open("fnv1a64:different", 1 << 30);
        directory.store(&mut other, image(&own));
    }
    // The own entry is older than any clock, the other one was used last.
    let name = EntryKey::of(&own).file_name("fnv1a64:abc");
    directory.files.get_mut(&name).expect("stored").1 = -5;
    let cache = directory.open("fnv1a64:abc", 1);
    let eviction = cache.begin_eviction(None);
    assert_eq!(eviction.candidates.len(), 2);
    assert_eq!(eviction.candidates[0].key, None);
    assert_eq!(eviction.candidates[1].key, Some(EntryKey::of(&own)));
}

#[test]
fn half_written_files_are_named_and_strangers_left_alone() {
    let mut directory = Directory::default();
    directory.files.insert("a.writing".into(), (vec![1], 0));
    directory.files.insert("notes.txt".into(), (vec![1, 2], 0));
    let cache = directory.open("fnv1a64:abc", 1 << 30);
    assert!(!directory.files.contains_key("a.writing"));
    assert!(directory.files.contains_key("notes.txt"));
    assert_eq!(cache.stats().bytes, 0);
}

#[test]
fn the_byte_count_is_that_of_the_files() {
    let mut directory = Directory::default();
    let mut cache = directory.open("fnv1a64:abc", 1 << 30);
    for start in [0u32, 50, 100] {
        let tokens: Vec<u32> = (start..start + 8).collect();
        directory.store(&mut cache, image(&tokens));
        let total: usize = directory.files.values().map(|(bytes, _)| bytes.len()).sum();
        assert_eq!(cache.stats().bytes, total as u64);
    }
    // Writing the same prefix again replaces its file.
    directory.store(&mut cache, image(&(0..8).collect::<Vec<u32>>()));
    let total: usize = directory.files.values().map(|(bytes, _)| bytes.len()).sum();
    assert_eq!(cache.stats().bytes, total as u64);
    assert_eq!(cache.stats().entries, 3);
}

#[test]
fn the_shipped_sizes() {
    let config = PromptCacheConfig::new("d".into());
    assert_eq!(config.budget_bytes, 20 * 1024 * 1024 * 1024);
    assert_eq!(config.block_tokens, 256);
    assert_eq!(config.min_tokens, 512);
}

#[test]
fn at_most_a_block_is_left_above_the_highest_boundary() {
    for len in 512..1100 {
        let highest = boundaries(len, 256, 256)[0];
        assert!(len - highest <= 256, "{len} {highest}");
    }
    let shared: Vec<u32> = (0..8).collect();
    let longer: Vec<u32> = (0..20).collect();
    assert_eq!(EntryKey::of(&longer[..8]), EntryKey::of(&shared));
    assert_ne!(EntryKey::of(&longer[1..9]), EntryKey::of(&shared));
}
