//! Which entry files there are, how much room they take, and which of them go
//! first when there is not enough.

use crate::prompt_cache::keys::{extension_of, has_extension, is_entry, named_key, parse_file_name, EntryKey};
use crate::prompt_cache::format::EXTENSION;
use crate::text::{
    lemma_text_total, lemma_text_transitive, same_text, text_in_order, text_le,
};
use vstd::prelude::*;

verus! {

/// One entry file.
#[derive(Debug, Clone, PartialEq, Eq)]
pub struct EntryMeta {
    /// The name of the file in the cache directory.
    pub name: String,
    pub bytes: u64,
    /// When the entry was last used, in nanoseconds since the epoch.
    pub used: i128,
}

/// What an [`EntryMeta`] says.
pub ghost struct FileView {
    pub name: Seq<char>,
    pub bytes: u64,
    pub used: i128,
}

impl View for EntryMeta {
    type V = FileView;

    open spec fn view(&self) -> FileView {
        FileView { name: self.name@, bytes: self.bytes, used: self.used }
    }
}

impl EntryMeta {
    /// A copy of this record.
    pub fn copy(&self) -> (copy: Self)
        ensures
            copy@ == self@,
    {
        EntryMeta { name: self.name.clone(), bytes: self.bytes, used: self.used }
    }
}

/// The files of a cache directory, as far as it knows them.
#[derive(Debug, Clone)]
pub struct Index {
    /// Entries belonging to the loaded checkpoint, each key once.
    entries: Vec<(EntryKey, EntryMeta)>,
    /// Entries left by another checkpoint. Unusable, but they occupy the same
    /// budget and are the first thing eviction reclaims.
    foreign: Vec<EntryMeta>,
    bytes: u64,
}

/// Contents of an index.
pub ghost struct IndexView {
    pub entries: Map<EntryKey, FileView>,
    pub foreign: Seq<FileView>,
    pub bytes: u64,
}

/// The records of a list of entries.
pub open spec fn entry_map(entries: Seq<(EntryKey, FileView)>) -> Map<EntryKey, FileView>
    decreases entries.len(),
{
    if entries.len() == 0 {
        Map::empty()
    } else {
        entry_map(entries.drop_last()).insert(entries.last().0, entries.last().1)
    }
}

/// Whether every key occurs once.
pub open spec fn keys_differ(entries: Seq<(EntryKey, FileView)>) -> bool {
    forall|i: int, j: int|
        0 <= i < j < entries.len() ==> (#[trigger] entries[i]).0 != (#[trigger] entries[j]).0
}

/// A list with distinct keys is the map it stands for, row by row.
proof fn lemma_entry_map(entries: Seq<(EntryKey, FileView)>)
    requires
        keys_differ(entries),
    ensures
        forall|i: int|
            0 <= i < entries.len() ==> entry_map(entries).contains_key((#[trigger] entries[i]).0)
                && entry_map(entries)[entries[i].0] == entries[i].1,
        forall|key: EntryKey| #[trigger]
            entry_map(entries).contains_key(key) ==> exists|i: int|
                0 <= i < entries.len() && (#[trigger] entries[i]).0 == key,
        entry_map(entries).dom().finite(),
        entry_map(entries).dom().len() == entries.len(),
    decreases entries.len(),
{
    if entries.len() > 0 {
        let rest = entries.drop_last();
        assert forall|i: int, j: int| 0 <= i < j < rest.len() implies (#[trigger] rest[i]).0 != (
        #[trigger] rest[j]).0 by {
            assert(rest[i] == entries[i] && rest[j] == entries[j]);
        }
        lemma_entry_map(rest);
        let key = entries.last().0;
        assert(!entry_map(rest).contains_key(key)) by {
            if entry_map(rest).contains_key(key) {
                let i = choose|i: int| 0 <= i < rest.len() && (#[trigger] rest[i]).0 == key;
                assert(entries[i].0 == entries[entries.len() - 1].0);
            }
        }
        assert forall|i: int| 0 <= i < entries.len() implies entry_map(entries).contains_key(
            (#[trigger] entries[i]).0,
        ) && entry_map(entries)[entries[i].0] == entries[i].1 by {
            if i < rest.len() {
                assert(rest[i] == entries[i]);
            }
        }
        assert forall|k: EntryKey| #[trigger]
            entry_map(entries).contains_key(k) implies exists|i: int|
            0 <= i < entries.len() && (#[trigger] entries[i]).0 == k by {
            if k == key {
                assert(entries[entries.len() - 1].0 == k);
            } else {
                let i = choose|i: int| 0 <= i < rest.len() && (#[trigger] rest[i]).0 == k;
                assert(entries[i].0 == k);
            }
        }
    }
}

/// Two lists with distinct keys and the same rows stand for the same map.
proof fn lemma_same_rows(a: Seq<(EntryKey, FileView)>, map: Map<EntryKey, FileView>)
    requires
        keys_differ(a),
        forall|i: int|
            0 <= i < a.len() ==> map.contains_key((#[trigger] a[i]).0) && map[a[i].0] == a[i].1,
        forall|key: EntryKey| #[trigger]
            map.contains_key(key) ==> exists|i: int| 0 <= i < a.len() && (#[trigger] a[i]).0 == key,
    ensures
        entry_map(a) == map,
{
    lemma_entry_map(a);
    assert(entry_map(a) =~= map) by {
        assert forall|key: EntryKey| #[trigger]
            map.contains_key(key) implies entry_map(a).contains_key(key) && entry_map(a)[key]
            == map[key] by {
            let i = choose|i: int| 0 <= i < a.len() && (#[trigger] a[i]).0 == key;
            assert(a[i].0 == key);
        }
        assert forall|key: EntryKey| #[trigger]
            entry_map(a).contains_key(key) implies map.contains_key(key) by {
            let i = choose|i: int| 0 <= i < a.len() && (#[trigger] a[i]).0 == key;
            assert(a[i].0 == key);
        }
    }
}

/// A sum as far as a byte count reaches.
pub open spec fn capped_sum(a: u64, b: u64) -> u64 {
    if a + b > u64::MAX {
        u64::MAX
    } else {
        (a + b) as u64
    }
}

/// A difference that does not fall below zero.
pub open spec fn capped_difference(a: u64, b: u64) -> u64 {
    if a < b {
        0
    } else {
        (a - b) as u64
    }
}

impl IndexView {
    /// The index after a file was written under a key.
    pub open spec fn inserted(self, key: EntryKey, file: FileView) -> IndexView {
        let freed = if self.entries.contains_key(key) {
            capped_difference(self.bytes, self.entries[key].bytes)
        } else {
            self.bytes
        };
        IndexView {
            entries: self.entries.insert(key, file),
            foreign: self.foreign,
            bytes: capped_sum(freed, file.bytes),
        }
    }

    /// The index after an entry was forgotten.
    pub open spec fn removed(self, key: EntryKey) -> IndexView {
        if self.entries.contains_key(key) {
            IndexView {
                entries: self.entries.remove(key),
                foreign: self.foreign,
                bytes: capped_difference(self.bytes, self.entries[key].bytes),
            }
        } else {
            self
        }
    }

    /// The index after another checkpoint's file was removed.
    pub open spec fn without_foreign(self, name: Seq<char>, bytes: u64) -> IndexView {
        IndexView {
            entries: self.entries,
            foreign: self.foreign.filter(|file: FileView| file.name != name),
            bytes: capped_difference(self.bytes, bytes),
        }
    }
}

impl View for Index {
    type V = IndexView;

    closed spec fn view(&self) -> IndexView {
        IndexView {
            entries: entry_map(self.rows()),
            foreign: self.foreign_rows(),
            bytes: self.bytes,
        }
    }
}

impl Index {
    spec fn rows(&self) -> Seq<(EntryKey, FileView)> {
        Seq::new(self.entries@.len(), |i: int| (self.entries@[i].0, self.entries@[i].1@))
    }

    spec fn foreign_rows(&self) -> Seq<FileView> {
        Seq::new(self.foreign@.len(), |i: int| self.foreign@[i]@)
    }

    /// Every key has one entry.
    pub closed spec fn wf(&self) -> bool {
        keys_differ(self.rows())
    }

    /// An index knows finitely many entries.
    pub proof fn entries_are_finite(&self)
        requires
            self.wf(),
        ensures
            self@.entries.dom().finite(),
    {
        lemma_entry_map(self.rows());
    }

    /// An index of an empty directory.
    pub fn empty() -> (index: Self)
        ensures
            index.wf(),
            index@ == (IndexView {
                entries: Map::empty(),
                foreign: Seq::empty(),
                bytes: 0,
            }),
    {
        let index = Index { entries: Vec::new(), foreign: Vec::new(), bytes: 0 };
        proof {
            assert(index.rows() =~= Seq::<(EntryKey, FileView)>::empty());
            assert(index.foreign_rows() =~= Seq::<FileView>::empty());
        }
        index
    }

    /// Where the entry of a key stands.
    fn find(&self, key: &EntryKey) -> (found: Option<usize>)
        requires
            self.wf(),
        ensures
            match found {
                Some(i) => i < self.entries@.len() && self.entries@[i as int].0 == *key
                    && self@.entries.contains_key(*key) && self@.entries[*key]
                    == self.entries@[i as int].1@,
                None => !self@.entries.contains_key(*key),
            },
    {
        proof {
            lemma_entry_map(self.rows());
        }
        let mut i: usize = 0;
        while i < self.entries.len()
            invariant
                i <= self.entries@.len(),
                forall|j: int| 0 <= j < i ==> (#[trigger] self.rows()[j]).0 != *key,
                forall|j: int|
                    0 <= j < self.rows().len() ==> self@.entries.contains_key(
                        (#[trigger] self.rows()[j]).0,
                    ) && self@.entries[self.rows()[j].0] == self.rows()[j].1,
            decreases self.entries@.len() - i,
        {
            if self.entries[i].0.tokens == key.tokens && self.entries[i].0.hash == key.hash {
                proof {
                    assert(self.rows()[i as int].0 == *key);
                }
                return Some(i);
            }
            i += 1;
        }
        None
    }

    /// How many entries belong to the loaded checkpoint.
    pub fn len(&self) -> (len: usize)
        requires
            self.wf(),
        ensures
            len == self@.entries.dom().len(),
    {
        proof {
            lemma_entry_map(self.rows());
        }
        self.entries.len()
    }

    /// Bytes of all known files.
    pub fn total(&self) -> (bytes: u64)
        ensures
            bytes == self@.bytes,
    {
        self.bytes
    }

    /// The record of an entry.
    pub fn get(&self, key: &EntryKey) -> (meta: Option<EntryMeta>)
        requires
            self.wf(),
        ensures
            match meta {
                Some(meta) => self@.entries.contains_key(*key) && self@.entries[*key] == meta@,
                None => !self@.entries.contains_key(*key),
            },
    {
        match self.find(key) {
            Some(i) => Some(self.entries[i].1.copy()),
            None => None,
        }
    }

    /// Records a file that was written, in place of an earlier one of the same
    /// key.
    pub fn insert(&mut self, key: EntryKey, meta: EntryMeta)
        requires
            old(self).wf(),
        ensures
            final(self).wf(),
            final(self)@ == old(self)@.inserted(key, meta@),
    {
        let added: u64 = meta.bytes;
        let ghost before = self.rows();
        let ghost map = self@.entries.insert(key, meta@);
        let ghost file = meta@;
        proof {
            lemma_entry_map(before);
        }
        match self.find(&key) {
            Some(i) => {
                let replaced: u64 = self.entries[i].1.bytes;
                self.entries.set(i, (key, meta));
                self.bytes = self.bytes.saturating_sub(replaced);
                proof {
                    assert(self.rows() =~= before.update(i as int, (key, file)));
                    assert forall|a: int, b: int| 0 <= a < b < self.rows().len() implies (
                    #[trigger] self.rows()[a]).0 != (#[trigger] self.rows()[b]).0 by {
                        assert(before[a].0 != before[b].0);
                    }
                    assert forall|k: EntryKey| #[trigger] map.contains_key(k) implies exists|j: int|
                        0 <= j < self.rows().len() && (#[trigger] self.rows()[j]).0 == k by {
                        if k == key {
                            assert(self.rows()[i as int].0 == k);
                        } else {
                            let j = choose|j: int|
                                0 <= j < before.len() && (#[trigger] before[j]).0 == k;
                            assert(self.rows()[j].0 == k);
                        }
                    }
                    assert forall|j: int| 0 <= j < self.rows().len() implies map.contains_key(
                        (#[trigger] self.rows()[j]).0,
                    ) && map[self.rows()[j].0] == self.rows()[j].1 by {
                        assert(before[j].0 == self.rows()[j].0);
                        if j != i {
                            assert(before[j].0 != before[i as int].0);
                        }
                    }
                    lemma_same_rows(self.rows(), map);
                }
            },
            None => {
                self.entries.push((key, meta));
                proof {
                    assert(self.rows() =~= before.push((key, file)));
                    assert forall|a: int, b: int| 0 <= a < b < self.rows().len() implies (
                    #[trigger] self.rows()[a]).0 != (#[trigger] self.rows()[b]).0 by {
                        assert(self.rows()[a] == before[a]);
                        if b < before.len() {
                            assert(self.rows()[b] == before[b]);
                        }
                    }
                    assert(self.rows().drop_last() =~= before);
                }
            },
        }
        self.bytes = self.bytes.saturating_add(added);
        proof {
            assert(self.foreign_rows() =~= old(self).foreign_rows());
        }
    }

    /// Forgets an entry.
    pub fn remove(&mut self, key: &EntryKey) -> (meta: Option<EntryMeta>)
        requires
            old(self).wf(),
        ensures
            final(self).wf(),
            final(self)@ == old(self)@.removed(*key),
            match meta {
                Some(meta) => old(self)@.entries.contains_key(*key) && old(self)@.entries[*key]
                    == meta@,
                None => !old(self)@.entries.contains_key(*key),
            },
    {
        let ghost before = self.rows();
        proof {
            lemma_entry_map(before);
        }
        match self.find(key) {
            None => None,
            Some(i) => {
                let ghost map = self@.entries.remove(*key);
                let (_, meta) = self.entries.remove(i);
                self.bytes = self.bytes.saturating_sub(meta.bytes);
                proof {
                    assert(self.rows() =~= before.remove(i as int));
                    assert forall|a: int, b: int| 0 <= a < b < self.rows().len() implies (
                    #[trigger] self.rows()[a]).0 != (#[trigger] self.rows()[b]).0 by {
                        let x = if a < i {
                            a
                        } else {
                            a + 1
                        };
                        let y = if b < i {
                            b
                        } else {
                            b + 1
                        };
                        assert(before[x].0 != before[y].0);
                    }
                    assert forall|k: EntryKey| #[trigger] map.contains_key(k) implies exists|j: int|
                        0 <= j < self.rows().len() && (#[trigger] self.rows()[j]).0 == k by {
                        let j = choose|j: int|
                            0 <= j < before.len() && (#[trigger] before[j]).0 == k;
                        if j < i {
                            assert(self.rows()[j].0 == k);
                        } else {
                            assert(self.rows()[j - 1].0 == k);
                        }
                    }
                    assert forall|j: int| 0 <= j < self.rows().len() implies map.contains_key(
                        (#[trigger] self.rows()[j]).0,
                    ) && map[self.rows()[j].0] == self.rows()[j].1 by {
                        let x = if j < i {
                            j
                        } else {
                            j + 1
                        };
                        assert(before[x].0 == self.rows()[j].0);
                        if x < i {
                            assert(before[x].0 != before[i as int].0);
                        } else {
                            assert(before[i as int].0 != before[x].0);
                        }
                    }
                    lemma_same_rows(self.rows(), map);
                    assert(self.foreign_rows() =~= old(self).foreign_rows());
                }
                Some(meta)
            },
        }
    }

    /// Records a use of an entry.
    pub fn touch(&mut self, key: &EntryKey, now: i128)
        requires
            old(self).wf(),
        ensures
            final(self).wf(),
            final(self)@ == (if old(self)@.entries.contains_key(*key) {
                IndexView {
                    entries: old(self)@.entries.insert(
                        *key,
                        FileView { used: now, ..old(self)@.entries[*key] },
                    ),
                    ..old(self)@
                }
            } else {
                old(self)@
            }),
    {
        match self.find(key) {
            None => {},
            Some(i) => {
                let ghost before = self.rows();
                let ghost file = FileView { used: now, ..self@.entries[*key] };
                let ghost map = self@.entries.insert(*key, file);
                proof {
                    lemma_entry_map(before);
                }
                let mut meta = self.entries[i].1.copy();
                meta.used = now;
                self.entries.set(i, (*key, meta));
                proof {
                    assert(self.rows() =~= before.update(i as int, (*key, file)));
                    assert forall|a: int, b: int| 0 <= a < b < self.rows().len() implies (
                    #[trigger] self.rows()[a]).0 != (#[trigger] self.rows()[b]).0 by {
                        assert(before[a].0 != before[b].0);
                    }
                    assert forall|k: EntryKey| #[trigger] map.contains_key(k) implies exists|j: int|
                        0 <= j < self.rows().len() && (#[trigger] self.rows()[j]).0 == k by {
                        if k == *key {
                            assert(self.rows()[i as int].0 == k);
                        } else {
                            let j = choose|j: int|
                                0 <= j < before.len() && (#[trigger] before[j]).0 == k;
                            assert(self.rows()[j].0 == k);
                        }
                    }
                    assert forall|j: int| 0 <= j < self.rows().len() implies map.contains_key(
                        (#[trigger] self.rows()[j]).0,
                    ) && map[self.rows()[j].0] == self.rows()[j].1 by {
                        assert(before[j].0 == self.rows()[j].0);
                        if j != i {
                            assert(before[j].0 != before[i as int].0);
                        }
                    }
                    lemma_same_rows(self.rows(), map);
                    assert(self.foreign_rows() =~= old(self).foreign_rows());
                }
            },
        }
    }

    /// Forgets another checkpoint's file that was removed.
    pub fn remove_foreign(&mut self, name: &str, bytes: u64)
        requires
            old(self).wf(),
        ensures
            final(self).wf(),
            final(self)@ == old(self)@.without_foreign(name@, bytes),
    {
        let ghost before = self.foreign_rows();
        let ghost keep = |file: FileView| file.name != name@;
        let mut kept: Vec<EntryMeta> = Vec::new();
        let mut i: usize = 0;
        proof {
            assert(before.take(0) =~= Seq::<FileView>::empty());
            assert(before.take(0).filter(keep) =~= Seq::<FileView>::empty()) by {
                reveal(Seq::filter);
            }
        }
        while i < self.foreign.len()
            invariant
                i <= self.foreign@.len(),
                before == self.foreign_rows(),
                keep == (|file: FileView| file.name != name@),
                Seq::new(kept@.len(), |j: int| kept@[j]@) == before.take(i as int).filter(keep),
            decreases self.foreign@.len() - i,
        {
            let ghost seen = Seq::new(kept@.len(), |j: int| kept@[j]@);
            proof {
                assert(before.take(i + 1).drop_last() =~= before.take(i as int));
                assert(before.take(i + 1).last() == self.foreign@[i as int]@);
                reveal(Seq::filter);
            }
            if !same_text(self.foreign[i].name.as_str(), name) {
                kept.push(self.foreign[i].copy());
                proof {
                    assert(Seq::new(kept@.len(), |j: int| kept@[j]@) =~= seen.push(
                        self.foreign@[i as int]@,
                    ));
                }
            }
            i += 1;
        }
        proof {
            assert(before.take(before.len() as int) =~= before);
        }
        self.foreign = kept;
        self.bytes = self.bytes.saturating_sub(bytes);
        proof {
            assert(self.rows() =~= old(self).rows());
            assert(self.foreign_rows() =~= before.filter(keep));
        }
    }
}

/// A file found in the cache directory.
#[derive(Debug, Clone, PartialEq, Eq)]
pub struct FoundFile {
    pub name: String,
    /// Whether it is a regular file whose size could be read.
    pub is_file: bool,
    pub bytes: u64,
    /// When it was last modified, in nanoseconds since the epoch; zero where
    /// that is not known.
    pub modified: i128,
}

/// What a [`FoundFile`] says.
pub ghost struct FoundView {
    pub name: Seq<char>,
    pub is_file: bool,
    pub bytes: u64,
    pub modified: i128,
}

impl View for FoundFile {
    type V = FoundView;

    open spec fn view(&self) -> FoundView {
        FoundView {
            name: self.name@,
            is_file: self.is_file,
            bytes: self.bytes,
            modified: self.modified,
        }
    }
}

/// The index of the first `n` files of a directory. A file whose name does not
/// parse belongs to another version or another tool; it is counted against the
/// budget so the directory stays bounded, and otherwise left alone.
pub open spec fn scanned(files: Seq<FoundView>, n: int, fingerprint: Seq<char>) -> IndexView
    decreases n,
{
    if n <= 0 {
        IndexView { entries: Map::empty(), foreign: Seq::empty(), bytes: 0 }
    } else {
        let index = scanned(files, n - 1, fingerprint);
        let found = files[n - 1];
        if extension_of(found.name) != Some(EXTENSION@) || !found.is_file {
            index
        } else {
            let file = FileView { name: found.name, bytes: found.bytes, used: found.modified };
            let bytes = capped_sum(index.bytes, found.bytes);
            match named_key(found.name, fingerprint) {
                Some(key) => IndexView {
                    entries: index.entries.insert(key, file),
                    foreign: index.foreign,
                    bytes,
                },
                None => IndexView {
                    entries: index.entries,
                    foreign: index.foreign.push(file),
                    bytes,
                },
            }
        }
    }
}

/// The half-written files that a killed process left among the first `n`.
pub open spec fn leftovers(files: Seq<FoundView>, n: int) -> Seq<Seq<char>>
    decreases n,
{
    if n <= 0 {
        Seq::empty()
    } else if extension_of(files[n - 1].name) == Some("writing"@) {
        leftovers(files, n - 1).push(files[n - 1].name)
    } else {
        leftovers(files, n - 1)
    }
}

/// Build the index from the directory's contents. Also names the half-written
/// files, which are to be removed.
pub fn scan(files: &Vec<FoundFile>, fingerprint: &str) -> (result: (Index, Vec<String>))
    ensures
        ({
            let found = Seq::new(files@.len(), |i: int| files@[i]@);
            &&& result.0.wf()
            &&& result.0@ == scanned(found, found.len() as int, fingerprint@)
            &&& Seq::new(result.1@.len(), |i: int| result.1@[i]@) == leftovers(
                found,
                found.len() as int,
            )
        }),
{
    let ghost found = Seq::new(files@.len(), |i: int| files@[i]@);
    let mut index = Index::empty();
    let mut half_written: Vec<String> = Vec::new();
    let mut i: usize = 0;
    proof {
        reveal_strlit("writing");
        reveal_strlit("inferq-prompt");
        assert("writing"@.len() != EXTENSION@.len());
        assert(Seq::new(half_written@.len(), |j: int| half_written@[j]@) =~= leftovers(found, 0));
    }
    while i < files.len()
        invariant
            i <= files@.len(),
            found == Seq::new(files@.len(), |i: int| files@[i]@),
            "writing"@.len() != EXTENSION@.len(),
            index.wf(),
            index@ == scanned(found, i as int, fingerprint@),
            Seq::new(half_written@.len(), |j: int| half_written@[j]@) == leftovers(
                found,
                i as int,
            ),
        decreases files@.len() - i,
    {
        let file = &files[i];
        let ghost seen = Seq::new(half_written@.len(), |j: int| half_written@[j]@);
        proof {
            assert(found[i as int] == file@);
        }
        if has_extension(file.name.as_str(), "writing") {
            half_written.push(file.name.clone());
            proof {
                assert(Seq::new(half_written@.len(), |j: int| half_written@[j]@) =~= seen.push(
                    file.name@,
                ));
            }
        } else if is_entry(file.name.as_str()) && file.is_file {
            let meta = EntryMeta {
                name: file.name.clone(),
                bytes: file.bytes,
                used: file.modified,
            };
            let ghost before = index@;
            let total: u64 = index.bytes.saturating_add(file.bytes);
            match parse_file_name(file.name.as_str(), fingerprint) {
                Some(key) => {
                    index.insert(key, meta);
                    index.bytes = total;
                    proof {
                        assert(index.rows() =~= index.rows());
                        assert(index@.entries == before.entries.insert(key, meta@));
                    }
                },
                None => {
                    let ghost rows = index.foreign_rows();
                    let ghost own = index.rows();
                    index.foreign.push(meta);
                    index.bytes = total;
                    proof {
                        assert(index.foreign_rows() =~= rows.push(meta@));
                        assert(index.rows() =~= own);
                    }
                },
            }
        }
        i += 1;
    }
    (index, half_written)
}

/// A file that may be evicted.
#[derive(Debug, Clone, PartialEq, Eq)]
pub struct Candidate {
    pub used: i128,
    /// The key of an own entry; nothing for another checkpoint's file.
    pub key: Option<EntryKey>,
    pub name: String,
    pub bytes: u64,
}

/// What a [`Candidate`] says.
pub ghost struct CandidateView {
    pub used: i128,
    pub key: Option<EntryKey>,
    pub name: Seq<char>,
    pub bytes: u64,
}

impl View for Candidate {
    type V = CandidateView;

    open spec fn view(&self) -> CandidateView {
        CandidateView { used: self.used, key: self.key, name: self.name@, bytes: self.bytes }
    }
}

/// Eviction order: another checkpoint's files first, then the least recently
/// used, then by name.
pub open spec fn goes_first(a: CandidateView, b: CandidateView) -> bool {
    if a.key is None != b.key is None {
        a.key is None
    } else {
        a.used < b.used || (a.used == b.used && text_le(a.name, b.name))
    }
}

/// Whether a list is in eviction order.
pub open spec fn in_eviction_order(candidates: Seq<CandidateView>) -> bool {
    forall|i: int, j: int|
        0 <= i < j < candidates.len() ==> goes_first(
            #[trigger] candidates[i],
            #[trigger] candidates[j],
        )
}

/// Of two own entries the one that was used earlier is reclaimed before the
/// other.
pub proof fn the_least_recently_used_goes_first(candidates: Seq<CandidateView>, i: int, j: int)
    requires
        in_eviction_order(candidates),
        0 <= i < candidates.len(),
        0 <= j < candidates.len(),
        candidates[i].key is Some,
        candidates[j].key is Some,
    ensures
        i < j ==> candidates[i].used <= candidates[j].used,
        candidates[i].used < candidates[j].used ==> i < j,
{
    if i < j {
        assert(goes_first(candidates[i], candidates[j]));
    } else if j < i {
        assert(goes_first(candidates[j], candidates[i]));
    }
}

/// What another checkpoint left behind is reclaimed before any own entry.
pub proof fn other_checkpoints_go_first(candidates: Seq<CandidateView>, other: int, own: int)
    requires
        in_eviction_order(candidates),
        0 <= other < candidates.len(),
        0 <= own < candidates.len(),
        candidates[other].key is None,
        candidates[own].key is Some,
    ensures
        other < own,
{
    if own < other {
        assert(goes_first(candidates[own], candidates[other]));
    }
}

proof fn lemma_goes_first_transitive(a: CandidateView, b: CandidateView, c: CandidateView)
    requires
        goes_first(a, b),
        goes_first(b, c),
    ensures
        goes_first(a, c),
{
    if a.key is None == b.key is None && b.key is None == c.key is None && a.used == b.used
        && b.used == c.used {
        lemma_text_transitive(a.name, b.name, c.name);
    }
}

/// Whether an own entry is a candidate: any but the one to keep.
pub open spec fn own_candidate(key: EntryKey, file: FileView) -> CandidateView {
    CandidateView { used: file.used, key: Some(key), name: file.name, bytes: file.bytes }
}

/// Another checkpoint's file as a candidate. It costs the same and can never
/// be read, so it counts as never used and goes before every own entry.
pub open spec fn foreign_candidate(file: FileView) -> CandidateView {
    CandidateView { used: 0, key: None, name: file.name, bytes: file.bytes }
}

/// The views of a list of candidates.
pub open spec fn candidate_views(candidates: Seq<Candidate>) -> Seq<CandidateView> {
    Seq::new(candidates.len(), |i: int| candidates[i]@)
}

/// Whether a list, from `from` on, names exactly the files that may go: all of
/// another checkpoint, and all own ones but the one to keep.
pub open spec fn covers(
    candidates: Seq<CandidateView>,
    from: int,
    index: IndexView,
    keep: Option<EntryKey>,
) -> bool {
    &&& forall|key: EntryKey| #[trigger]
        index.entries.contains_key(key) && Some(key) != keep ==> exists|i: int|
            from <= i < candidates.len() && #[trigger] candidates[i] == own_candidate(
                key,
                index.entries[key],
            )
    &&& forall|k: int|
        0 <= k < index.foreign.len() ==> exists|i: int|
            from <= i < candidates.len() && #[trigger] candidates[i] == foreign_candidate(
                #[trigger] index.foreign[k],
            )
}

/// Whether every listed file may go.
pub open spec fn only_evictable(
    candidates: Seq<CandidateView>,
    index: IndexView,
    keep: Option<EntryKey>,
) -> bool {
    forall|i: int|
        0 <= i < candidates.len() ==> match (#[trigger] candidates[i]).key {
            Some(key) => Some(key) != keep && index.entries.contains_key(key) && candidates[i]
                == own_candidate(key, index.entries[key]),
            None => exists|k: int|
                0 <= k < index.foreign.len() && candidates[i] == foreign_candidate(
                    #[trigger] index.foreign[k],
                ),
        }
}

/// Puts a candidate into its place in a list that is in order.
fn place(candidates: &mut Vec<Candidate>, candidate: Candidate)
    requires
        in_eviction_order(candidate_views(old(candidates)@)),
    ensures
        in_eviction_order(candidate_views(final(candidates)@)),
        final(candidates)@.len() == old(candidates)@.len() + 1,
        exists|at: int|
            0 <= at <= old(candidates)@.len() && candidate_views(final(candidates)@)
                == #[trigger] candidate_views(old(candidates)@).insert(at, candidate@),
{
    let ghost before = candidate_views(candidates@);
    let ghost new = candidate@;
    let mut at: usize = candidates.len();
    let mut placed = false;
    while at > 0 && !placed
        invariant
            at <= candidates@.len(),
            before == candidate_views(candidates@),
            new == candidate@,
            in_eviction_order(before),
            placed ==> at > 0 && goes_first(before[at - 1], new),
            forall|j: int| at <= j < before.len() ==> goes_first(new, #[trigger] before[j]),
        decreases
            at + (if placed {
                0int
            } else {
                1int
            }),
    {
        let last = &candidates[at - 1];
        let first: bool = if last.key.is_none() != candidate.key.is_none() {
            last.key.is_none()
        } else {
            last.used < candidate.used || (last.used == candidate.used && text_in_order(
                last.name.as_str(),
                candidate.name.as_str(),
            ))
        };
        proof {
            assert(before[at - 1] == last@);
            lemma_text_total(last.name@, candidate.name@);
        }
        if first {
            placed = true;
        } else {
            at -= 1;
        }
    }
    candidates.insert(at, candidate);
    proof {
        let after = candidate_views(candidates@);
        assert(after =~= before.insert(at as int, new));
        assert forall|i: int, j: int| 0 <= i < j < after.len() implies goes_first(
            #[trigger] after[i],
            #[trigger] after[j],
        ) by {
            if i < at && j == at {
                if i < at - 1 {
                    lemma_goes_first_transitive(before[i], before[at - 1], new);
                }
            } else if i < at && j > at {
                assert(goes_first(before[i], before[j - 1]));
            } else if i == at {
                assert(goes_first(new, before[j - 1]));
            } else if j < at {
                assert(goes_first(before[i], before[j]));
            } else {
                assert(goes_first(before[i - 1], before[j - 1]));
            }
        }
    }
}

impl Index {
    /// The files that may be evicted, in the order in which they go: another
    /// checkpoint's files, then own entries by their last use. `keep` is never
    /// among them.
    pub fn eviction_candidates(&self, keep: Option<EntryKey>) -> (candidates: Vec<Candidate>)
        requires
            self.wf(),
        ensures
            in_eviction_order(candidate_views(candidates@)),
            covers(candidate_views(candidates@), 0, self@, keep),
            only_evictable(candidate_views(candidates@), self@, keep),
            candidates@.len() == self@.foreign.len() + self@.entries.dom().len() - (if keep is Some
                && self@.entries.contains_key(keep->0) {
                1int
            } else {
                0int
            }),
    {
        proof {
            lemma_entry_map(self.rows());
        }
        let mut candidates: Vec<Candidate> = Vec::new();
        let mut i: usize = 0;
        while i < self.foreign.len()
            invariant
                self.wf(),
                i <= self.foreign@.len(),
                candidates@.len() == i,
                in_eviction_order(candidate_views(candidates@)),
                only_evictable(candidate_views(candidates@), self@, keep),
                forall|k: int|
                    0 <= k < i ==> exists|j: int|
                        0 <= j < candidates@.len() && #[trigger] candidate_views(candidates@)[j]
                            == foreign_candidate(#[trigger] self@.foreign[k]),
            decreases self.foreign@.len() - i,
        {
            let file = &self.foreign[i];
            let ghost before = candidate_views(candidates@);
            let candidate = Candidate {
                used: 0,
                key: None,
                name: file.name.clone(),
                bytes: file.bytes,
            };
            let ghost new = candidate@;
            proof {
                assert(self@.foreign[i as int] == file@);
                assert(new == foreign_candidate(self@.foreign[i as int]));
            }
            place(&mut candidates, candidate);
            proof {
                let after = candidate_views(candidates@);
                let at = choose|at: int|
                    0 <= at <= before.len() && after == #[trigger] before.insert(at, new);
                lemma_placed(before, after, at, new, self@, keep);
                assert forall|k: int| 0 <= k < i + 1 implies exists|j: int|
                    0 <= j < candidates@.len() && #[trigger] after[j] == foreign_candidate(
                        #[trigger] self@.foreign[k],
                    ) by {
                    if k == i {
                        assert(after[at] == new);
                    } else {
                        let j = choose|j: int|
                            0 <= j < before.len() && #[trigger] before[j] == foreign_candidate(
                                self@.foreign[k],
                            );
                        if j < at {
                            assert(after[j] == before[j]);
                        } else {
                            assert(after[j + 1] == before[j]);
                        }
                    }
                }
            }
            i += 1;
        }
        let mut n: usize = 0;
        let ghost mut skipped: int = 0;
        while n < self.entries.len()
            invariant
                self.wf(),
                n <= self.entries@.len(),
                candidates@.len() == self@.foreign.len() + n - skipped,
                skipped == 0 || skipped == 1,
                skipped == 0 ==> forall|k: int|
                    0 <= k < n ==> Some((#[trigger] self.rows()[k]).0) != keep,
                skipped == 1 ==> exists|k: int|
                    0 <= k < n && Some((#[trigger] self.rows()[k]).0) == keep,
                in_eviction_order(candidate_views(candidates@)),
                only_evictable(candidate_views(candidates@), self@, keep),
                forall|j: int|
                    0 <= j < self.rows().len() ==> self@.entries.contains_key(
                        (#[trigger] self.rows()[j]).0,
                    ) && self@.entries[self.rows()[j].0] == self.rows()[j].1,
                forall|k: int|
                    0 <= k < self@.foreign.len() ==> exists|j: int|
                        0 <= j < candidates@.len() && #[trigger] candidate_views(candidates@)[j]
                            == foreign_candidate(#[trigger] self@.foreign[k]),
                forall|k: int|
                    0 <= k < n && Some((#[trigger] self.rows()[k]).0) != keep ==> exists|j: int|
                        0 <= j < candidates@.len() && #[trigger] candidate_views(candidates@)[j]
                            == own_candidate(self.rows()[k].0, self.rows()[k].1),
            decreases self.entries@.len() - n,
        {
            let key: EntryKey = self.entries[n].0;
            let kept: bool = match keep {
                Some(keep) => keep.tokens == key.tokens && keep.hash == key.hash,
                None => false,
            };
            proof {
                assert(self.rows()[n as int] == (key, self.entries@[n as int].1@));
                assert(kept == (Some(key) == keep));
            }
            if !kept {
                let file = &self.entries[n].1;
                let ghost before = candidate_views(candidates@);
                let candidate = Candidate {
                    used: file.used,
                    key: Some(key),
                    name: file.name.clone(),
                    bytes: file.bytes,
                };
                let ghost new = candidate@;
                proof {
                    assert(new == own_candidate(key, self.rows()[n as int].1));
                }
                place(&mut candidates, candidate);
                proof {
                    let after = candidate_views(candidates@);
                    let at = choose|at: int|
                        0 <= at <= before.len() && after == #[trigger] before.insert(at, new);
                    lemma_placed(before, after, at, new, self@, keep);
                    assert forall|c: CandidateView| #[trigger]
                        before.contains(c) implies after.contains(c) by {
                        let j = choose|j: int| 0 <= j < before.len() && #[trigger] before[j] == c;
                        if j < at {
                            assert(after[j] == before[j]);
                        } else {
                            assert(after[j + 1] == before[j]);
                        }
                    }
                    assert(after[at] == new);
                    assert forall|k: int| 0 <= k < self@.foreign.len() implies exists|j: int|
                        0 <= j < candidates@.len() && #[trigger] after[j] == foreign_candidate(
                            #[trigger] self@.foreign[k],
                        ) by {
                        let c = foreign_candidate(self@.foreign[k]);
                        assert(before.contains(c));
                        assert(after.contains(c));
                    }
                    assert forall|k: int|
                        0 <= k < n + 1 && Some((#[trigger] self.rows()[k]).0)
                            != keep implies exists|j: int|
                        0 <= j < candidates@.len() && #[trigger] after[j] == own_candidate(
                            self.rows()[k].0,
                            self.rows()[k].1,
                        ) by {
                        if k < n {
                            let c = own_candidate(self.rows()[k].0, self.rows()[k].1);
                            assert(before.contains(c));
                            assert(after.contains(c));
                        }
                    }
                }
            } else {
                proof {
                    if skipped == 1 {
                        let k = choose|k: int|
                            0 <= k < n && Some((#[trigger] self.rows()[k]).0) == keep;
                        assert(self.rows()[k].0 != self.rows()[n as int].0);
                    }
                    skipped = 1;
                }
            }
            n += 1;
        }
        proof {
            let views = candidate_views(candidates@);
            lemma_entry_map(self.rows());
            assert forall|key: EntryKey| #[trigger]
                self@.entries.contains_key(key) && Some(key) != keep implies exists|i: int|
                0 <= i < views.len() && #[trigger] views[i] == own_candidate(
                    key,
                    self@.entries[key],
                ) by {
                let k = choose|k: int|
                    0 <= k < self.rows().len() && (#[trigger] self.rows()[k]).0 == key;
                assert(self.rows()[k].0 == key);
            }
        }
        candidates
    }
}

proof fn lemma_placed(
    before: Seq<CandidateView>,
    after: Seq<CandidateView>,
    at: int,
    new: CandidateView,
    index: IndexView,
    keep: Option<EntryKey>,
)
    requires
        0 <= at <= before.len(),
        after == before.insert(at, new),
        only_evictable(before, index, keep),
        match new.key {
            Some(key) => Some(key) != keep && index.entries.contains_key(key) && new
                == own_candidate(key, index.entries[key]),
            None => exists|k: int|
                0 <= k < index.foreign.len() && new == foreign_candidate(
                    #[trigger] index.foreign[k],
                ),
        },
    ensures
        only_evictable(after, index, keep),
{
    assert forall|i: int| 0 <= i < after.len() implies match (#[trigger] after[i]).key {
        Some(key) => Some(key) != keep && index.entries.contains_key(key) && after[i]
            == own_candidate(key, index.entries[key]),
        None => exists|k: int|
            0 <= k < index.foreign.len() && after[i] == foreign_candidate(
                #[trigger] index.foreign[k],
            ),
    } by {
        if i < at {
            assert(after[i] == before[i]);
        } else if i > at {
            assert(after[i] == before[i - 1]);
        }
    }
}

/// The bytes of all entries.
pub open spec fn entry_bytes(entries: Map<EntryKey, FileView>) -> int
    decreases entries.dom().len(),
    when entries.dom().finite()
{
    if entries.dom().len() == 0 {
        0
    } else {
        let key = entries.dom().choose();
        entries[key].bytes + entry_bytes(entries.remove(key))
    }
}

/// The bytes of a list of files.
pub open spec fn file_bytes(files: Seq<FileView>) -> int
    decreases files.len(),
{
    if files.len() == 0 {
        0
    } else {
        file_bytes(files.drop_last()) + files.last().bytes
    }
}

/// Any entry can be counted first.
proof fn lemma_entry_bytes(entries: Map<EntryKey, FileView>, key: EntryKey)
    requires
        entries.dom().finite(),
        entries.contains_key(key),
    ensures
        entry_bytes(entries) == entries[key].bytes + entry_bytes(entries.remove(key)),
    decreases entries.dom().len(),
{
    assert(entries.dom().len() > 0) by {
        if entries.dom().len() == 0 {
            entries.dom().lemma_len0_is_empty();
        }
    }
    let first = entries.dom().choose();
    assert(entries.dom().contains(first));
    if first != key {
        let rest = entries.remove(first);
        assert(rest.dom() =~= entries.dom().remove(first));
        lemma_entry_bytes(rest, key);
        let others = entries.remove(key);
        assert(others.dom() =~= entries.dom().remove(key));
        lemma_entry_bytes(others, first);
        assert(rest.remove(key) =~= others.remove(first));
    }
}

/// Bytes are never fewer than none.
proof fn lemma_entry_bytes_positive(entries: Map<EntryKey, FileView>)
    requires
        entries.dom().finite(),
    ensures
        entry_bytes(entries) >= 0,
    decreases entries.dom().len(),
{
    if entries.dom().len() > 0 {
        let key = entries.dom().choose();
        assert(entries.dom().contains(key));
        assert(entries.remove(key).dom() =~= entries.dom().remove(key));
        lemma_entry_bytes_positive(entries.remove(key));
    }
}

/// Files are never fewer bytes than none.
proof fn lemma_file_bytes_positive(files: Seq<FileView>)
    ensures
        file_bytes(files) >= 0,
    decreases files.len(),
{
    if files.len() > 0 {
        lemma_file_bytes_positive(files.drop_last());
    }
}

/// Whether no two files share a name.
pub open spec fn names_unique(files: Seq<FileView>) -> bool {
    forall|i: int, j: int|
        0 <= i < j < files.len() ==> (#[trigger] files[i]).name != (#[trigger] files[j]).name
}

/// Taking the one file of a name out of a list takes its bytes out.
proof fn lemma_file_bytes_without(files: Seq<FileView>, at: int)
    requires
        0 <= at < files.len(),
        names_unique(files),
    ensures
        file_bytes(files.filter(|file: FileView| file.name != files[at].name)) == file_bytes(files)
            - files[at].bytes,
    decreases files.len(),
{
    reveal(Seq::filter);
    let name = files[at].name;
    let keep = |file: FileView| file.name != name;
    let rest = files.drop_last();
    assert(names_unique(rest)) by {
        assert forall|i: int, j: int| 0 <= i < j < rest.len() implies (#[trigger] rest[i]).name != (
        #[trigger] rest[j]).name by {
            assert(rest[i] == files[i] && rest[j] == files[j]);
        }
    }
    if at == files.len() - 1 {
        lemma_file_bytes_kept(rest, name);
        assert(files.filter(keep) =~= rest.filter(keep));
    } else {
        lemma_file_bytes_without(rest, at);
        assert(rest[at] == files[at]);
        assert(files.last().name != name);
        assert(files.filter(keep) =~= rest.filter(keep).push(files.last()));
        assert(rest.filter(keep).push(files.last()).drop_last() =~= rest.filter(keep));
    }
}

/// A name that no file has takes nothing out of a list.
proof fn lemma_file_bytes_kept(files: Seq<FileView>, name: Seq<char>)
    requires
        forall|i: int| 0 <= i < files.len() ==> (#[trigger] files[i]).name != name,
    ensures
        files.filter(|file: FileView| file.name != name) == files,
    decreases files.len(),
{
    reveal(Seq::filter);
    let keep = |file: FileView| file.name != name;
    if files.len() > 0 {
        let rest = files.drop_last();
        assert forall|i: int| 0 <= i < rest.len() implies (#[trigger] rest[i]).name != name by {
            assert(rest[i] == files[i]);
        }
        lemma_file_bytes_kept(rest, name);
        assert(files[files.len() - 1].name != name);
        assert(rest.push(files.last()) =~= files);
    } else {
        assert(files.filter(keep) =~= files);
    }
}

/// Whether the byte count of an index is that of the files it knows.
pub open spec fn accounts_for_its_files(index: IndexView) -> bool {
    &&& index.entries.dom().finite()
    &&& index.bytes == entry_bytes(index.entries) + file_bytes(index.foreign)
}

/// Recording a file, in place of the one that its key had before, keeps the byte
/// count that of the known files, as long as it can be counted at all.
pub proof fn recording_keeps_the_byte_count(index: IndexView, key: EntryKey, file: FileView)
    requires
        accounts_for_its_files(index),
        index.bytes + file.bytes - (if index.entries.contains_key(key) {
            index.entries[key].bytes as int
        } else {
            0
        }) <= u64::MAX,
    ensures
        accounts_for_its_files(index.inserted(key, file)),
{
    let after = index.entries.insert(key, file);
    assert(after.dom() =~= index.entries.dom().insert(key));
    lemma_entry_bytes(after, key);
    lemma_file_bytes_positive(index.foreign);
    if index.entries.contains_key(key) {
        lemma_entry_bytes(index.entries, key);
        assert(index.entries.remove(key).dom() =~= index.entries.dom().remove(key));
        lemma_entry_bytes_positive(index.entries.remove(key));
        assert(after.remove(key) =~= index.entries.remove(key));
    } else {
        assert(after.remove(key) =~= index.entries);
    }
}

/// Forgetting an entry keeps the byte count that of the known files.
pub proof fn forgetting_keeps_the_byte_count(index: IndexView, key: EntryKey)
    requires
        accounts_for_its_files(index),
    ensures
        accounts_for_its_files(index.removed(key)),
{
    if index.entries.contains_key(key) {
        lemma_entry_bytes(index.entries, key);
        assert(index.entries.remove(key).dom() =~= index.entries.dom().remove(key));
        lemma_entry_bytes_positive(index.entries.remove(key));
        lemma_file_bytes_positive(index.foreign);
    }
}

/// Removing another checkpoint's file keeps the byte count that of the known
/// files.
pub proof fn removing_another_file_keeps_the_byte_count(index: IndexView, at: int)
    requires
        accounts_for_its_files(index),
        names_unique(index.foreign),
        0 <= at < index.foreign.len(),
    ensures
        accounts_for_its_files(
            index.without_foreign(index.foreign[at].name, index.foreign[at].bytes),
        ),
{
    lemma_file_bytes_without(index.foreign, at);
    lemma_entry_bytes_positive(index.entries);
    let left = index.foreign.filter(|file: FileView| file.name != index.foreign[at].name);
    lemma_file_bytes_positive(left);
}

} // verus!
