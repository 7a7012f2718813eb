//! Linux host and process telemetry used by repeatable benchmark artifacts:
//! what the text of `/proc` files and of system tools says.

use crate::text::{chars_of, find_next, next_index, parse_number, parsed_number, same_chars, text_of};
use crate::words::{blocks, blocks_of, lines, lines_of, part, pieces, trim, trimmed, words, words_of};
use vstd::prelude::*;

verus! {

/// What a line of the form `name: value` says of a key: the value, without the
/// white space around it.
pub open spec fn colon_value(line: Seq<char>, key: Seq<char>) -> Option<Seq<char>> {
    match next_index(line, ':', 0) {
        Some(i) => if trimmed(line.take(i)) == key {
            Some(trimmed(line.skip(i + 1)))
        } else {
            None
        },
        None => None,
    }
}

/// What the first of the lines that speaks of a key says of it.
pub open spec fn first_colon_value(lines: Seq<Seq<char>>, key: Seq<char>) -> Option<Seq<char>>
    decreases lines.len(),
{
    if lines.len() == 0 {
        None
    } else {
        match colon_value(lines[0], key) {
            Some(value) => Some(value),
            None => first_colon_value(lines.skip(1), key),
        }
    }
}

/// The number that follows a key at the start of a line: the first word behind
/// it.
pub open spec fn line_number(line: Seq<char>, key: Seq<char>) -> Option<nat> {
    if key.len() <= line.len() && line.take(key.len() as int) == key {
        let rest = words(line.skip(key.len() as int));
        if rest.len() > 0 {
            parsed_number(rest[0], 10, u64::MAX as nat)
        } else {
            None
        }
    } else {
        None
    }
}

/// The number that follows a key at the start of the first line that has one.
pub open spec fn first_line_number(lines: Seq<Seq<char>>, key: Seq<char>) -> Option<nat>
    decreases lines.len(),
{
    if lines.len() == 0 {
        None
    } else {
        match line_number(lines[0], key) {
            Some(n) => Some(n),
            None => first_line_number(lines.skip(1), key),
        }
    }
}

/// The value behind the colon in the first line whose name is the key.
fn colon_value_in(text: &[char], key: &[char]) -> (value: Option<Vec<char>>)
    ensures
        match value {
            Some(value) => first_colon_value(lines(text@), key@) == Some(value@),
            None => first_colon_value(lines(text@), key@) is None,
        },
{
    let list = lines_of(text);
    let ghost all = lines(text@);
    let mut i: usize = 0;
    proof {
        assert(all.skip(0) =~= all);
    }
    while i < list.len()
        invariant
            i <= list@.len(),
            all == lines(text@),
            all == pieces(list@),
            first_colon_value(all, key@) == first_colon_value(all.skip(i as int), key@),
        decreases list@.len() - i,
    {
        let line: &[char] = list[i].as_slice();
        proof {
            assert(all.skip(i as int).skip(1) =~= all.skip(i + 1));
            assert(all.skip(i as int)[0] == line@);
        }
        if let Some(at) = find_next(line, ':', 0) {
            let name = trim(part(line, 0, at).as_slice());
            proof {
                assert(line@.subrange(0, at as int) =~= line@.take(at as int));
            }
            if same_chars(name.as_slice(), key) {
                let value = trim(part(line, at + 1, line.len()).as_slice());
                proof {
                    assert(line@.subrange(at + 1, line@.len() as int) =~= line@.skip(at + 1));
                }
                return Some(value);
            }
        }
        i += 1;
    }
    None
}

/// The number behind a key, in the first line that starts with the key and has
/// one.
fn number_in(text: &[char], key: &[char]) -> (value: Option<u64>)
    ensures
        match value {
            Some(value) => first_line_number(lines(text@), key@) == Some(value as nat),
            None => first_line_number(lines(text@), key@) is None,
        },
{
    let list = lines_of(text);
    let ghost all = lines(text@);
    let mut i: usize = 0;
    proof {
        assert(all.skip(0) =~= all);
    }
    while i < list.len()
        invariant
            i <= list@.len(),
            all == lines(text@),
            all == pieces(list@),
            first_line_number(all, key@) == first_line_number(all.skip(i as int), key@),
        decreases list@.len() - i,
    {
        let line: &[char] = list[i].as_slice();
        proof {
            assert(all.skip(i as int).skip(1) =~= all.skip(i + 1));
            assert(all.skip(i as int)[0] == line@);
        }
        if key.len() <= line.len() {
            let start = part(line, 0, key.len());
            proof {
                assert(start@ =~= line@.take(key@.len() as int));
            }
            if same_chars(start.as_slice(), key) {
                let rest = part(line, key.len(), line.len());
                proof {
                    assert(rest@ =~= line@.skip(key@.len() as int));
                }
                let found = words_of(rest.as_slice());
                if found.len() > 0 {
                    proof {
                        assert(words(rest@)[0] == found@[0]@);
                    }
                    if let Some(value) = parse_number(found[0].as_slice(), 10) {
                        return Some(value);
                    }
                }
            }
        }
        i += 1;
    }
    None
}

/// The value behind the colon in the first line whose name is the key.
pub fn value_after_colon(text: &str, key: &str) -> (value: Option<String>)
    ensures
        match value {
            Some(value) => first_colon_value(lines(text@), key@) == Some(value@),
            None => first_colon_value(lines(text@), key@) is None,
        },
{
    match colon_value_in(chars_of(text).as_slice(), chars_of(key).as_slice()) {
        Some(value) => Some(text_of(value.as_slice())),
        None => None,
    }
}

/// The number behind a key, in the first line that starts with the key and has
/// one.
pub fn integer_value(text: &str, key: &str) -> (value: Option<u64>)
    ensures
        match value {
            Some(value) => first_line_number(lines(text@), key@) == Some(value as nat),
            None => first_line_number(lines(text@), key@) is None,
        },
{
    number_in(chars_of(text).as_slice(), chars_of(key).as_slice())
}

/// The number behind a key that counts units of 1024 bytes, in bytes.
pub fn kib_value(text: &str, key: &str) -> (value: Option<u64>)
    requires
        first_line_number(lines(text@), key@) matches Some(n) ==> n * 1024 <= u64::MAX,
    ensures
        match value {
            Some(value) => first_line_number(lines(text@), key@) matches Some(n) && value == n
                * 1024,
            None => first_line_number(lines(text@), key@) is None,
        },
{
    match integer_value(text, key) {
        Some(value) => Some(value * 1024),
        None => None,
    }
}

/// How far a counter rose, or zero where it fell.
pub open spec fn rise(before: Option<u64>, after: Option<u64>) -> Option<u64> {
    match (before, after) {
        (Some(b), Some(a)) => Some(
            if a >= b {
                (a - b) as u64
            } else {
                0
            },
        ),
        _ => None,
    }
}

/// How far a counter rose, or zero where it fell.
pub fn difference(before: Option<u64>, after: Option<u64>) -> (change: Option<u64>)
    ensures
        change == rise(before, after),
{
    match (before, after) {
        (Some(b), Some(a)) => Some(a.saturating_sub(b)),
        _ => None,
    }
}

/// The last place at which a closing bracket and a space stand.
pub open spec fn last_bracket(s: Seq<char>) -> Option<int>
    decreases s.len(),
{
    if s.len() < 2 {
        None
    } else if s[s.len() - 2] == ')' && s.last() == ' ' {
        Some(s.len() - 2)
    } else {
        last_bracket(s.drop_last())
    }
}

/// The n-th word, as a number.
pub open spec fn nth_number(list: Seq<Seq<char>>, n: int) -> Option<nat> {
    if n < list.len() {
        parsed_number(list[n], 10, u64::MAX as nat)
    } else {
        None
    }
}

/// A count of page faults as it is read.
pub open spec fn is_count(found: Option<u64>, n: Option<nat>) -> bool {
    match (found, n) {
        (Some(a), Some(b)) => a == b,
        (None, None) => true,
        _ => false,
    }
}

/// The n-th word, as a number.
fn number_at(list: &Vec<Vec<char>>, n: usize) -> (number: Option<u64>)
    ensures
        is_count(number, nth_number(pieces(list@), n as int)),
{
    if n < list.len() {
        parse_number(list[n].as_slice(), 10)
    } else {
        None
    }
}

/// The minor and major page faults in the text of `/proc/self/stat`. The
/// command's name stands in brackets; behind its last closing bracket, minor
/// faults are the eighth field and major faults the tenth.
pub fn parse_faults(stat: &str) -> (faults: (Option<u64>, Option<u64>))
    ensures
        match last_bracket(stat@) {
            None => faults == (None::<u64>, None::<u64>),
            Some(i) => {
                &&& is_count(faults.0, nth_number(words(stat@.skip(i + 2)), 7))
                &&& is_count(faults.1, nth_number(words(stat@.skip(i + 2)), 9))
            },
        },
{
    let chars = chars_of(stat);
    let mut i: usize = chars.len();
    proof {
        assert(stat@.take(stat@.len() as int) =~= stat@);
    }
    while i >= 2
        invariant
            chars@ == stat@,
            i <= stat@.len(),
            last_bracket(stat@) == last_bracket(stat@.take(i as int)),
        decreases i,
    {
        if chars[i - 2] == ')' && chars[i - 1] == ' ' {
            let rest = part(chars.as_slice(), i, chars.len());
            proof {
                assert(rest@ =~= stat@.skip(i as int));
            }
            let fields = words_of(rest.as_slice());
            return (number_at(&fields, 7), number_at(&fields, 9));
        }
        proof {
            assert(stat@.take(i as int).drop_last() =~= stat@.take(i - 1));
        }
        i -= 1;
    }
    (None, None)
}

/// The core that a block of `/proc/cpuinfo` describes: the values of its
/// physical id and its core id.
pub open spec fn core_of(block: Seq<char>) -> Option<(Seq<char>, Seq<char>)> {
    match (
        first_colon_value(lines(block), "physical id"@),
        first_colon_value(lines(block), "core id"@),
    ) {
        (Some(physical), Some(core)) => Some((physical, core)),
        _ => None,
    }
}

/// The cores that blocks describe.
pub open spec fn cores_of(list: Seq<Seq<char>>) -> Set<(Seq<char>, Seq<char>)>
    decreases list.len(),
{
    if list.len() == 0 {
        Set::empty()
    } else {
        match core_of(list.last()) {
            Some(core) => cores_of(list.drop_last()).insert(core),
            None => cores_of(list.drop_last()),
        }
    }
}

/// A list of cores.
pub open spec fn core_list(list: Seq<(Vec<char>, Vec<char>)>) -> Seq<(Seq<char>, Seq<char>)> {
    Seq::new(list.len(), |i: int| (list[i].0@, list[i].1@))
}

proof fn lemma_push_set<A>(list: Seq<A>, new: A)
    ensures
        list.push(new).to_set() == list.to_set().insert(new),
{
    assert forall|t: A| list.push(new).to_set().contains(t) <==> list.to_set().insert(
        new,
    ).contains(t) by {
        crate::text::lemma_push_contains(list, new, t);
    }
    assert(list.push(new).to_set() =~= list.to_set().insert(new));
}

/// The number of different cores that `/proc/cpuinfo` describes, where it
/// describes any.
pub fn physical_core_count(cpuinfo: &str) -> (count: Option<usize>)
    ensures
        cores_of(blocks(cpuinfo@)).finite(),
        count == if cores_of(blocks(cpuinfo@)).len() == 0 {
            None::<usize>
        } else {
            Some(cores_of(blocks(cpuinfo@)).len() as usize)
        },
        cores_of(blocks(cpuinfo@)).len() <= usize::MAX,
{
    let list = blocks_of(chars_of(cpuinfo).as_slice());
    let ghost all = blocks(cpuinfo@);
    let physical_key = chars_of("physical id");
    let core_key = chars_of("core id");
    let mut cores: Vec<(Vec<char>, Vec<char>)> = Vec::new();
    let mut i: usize = 0;
    proof {
        assert(all.take(0) =~= Seq::<Seq<char>>::empty());
        assert(core_list(cores@).to_set() =~= Set::<(Seq<char>, Seq<char>)>::empty());
    }
    while i < list.len()
        invariant
            i <= list@.len(),
            all == blocks(cpuinfo@),
            all == pieces(list@),
            physical_key@ == "physical id"@,
            core_key@ == "core id"@,
            core_list(cores@).no_duplicates(),
            core_list(cores@).to_set() == cores_of(all.take(i as int)),
        decreases list@.len() - i,
    {
        let block: &[char] = list[i].as_slice();
        proof {
            assert(all.take(i + 1).drop_last() =~= all.take(i as int));
            assert(all.take(i + 1).last() == block@);
        }
        if let Some(physical) = colon_value_in(block, physical_key.as_slice()) {
            if let Some(core) = colon_value_in(block, core_key.as_slice()) {
                let ghost new = (physical@, core@);
                let ghost before = core_list(cores@);
                let mut known: bool = false;
                let mut j: usize = 0;
                while j < cores.len()
                    invariant
                        j <= cores@.len(),
                        before == core_list(cores@),
                        new == (physical@, core@),
                        known == exists|k: int| 0 <= k < j && #[trigger] before[k] == new,
                    decreases cores@.len() - j,
                {
                    let same: bool = same_chars(cores[j].0.as_slice(), physical.as_slice())
                        && same_chars(cores[j].1.as_slice(), core.as_slice());
                    proof {
                        assert(same == (before[j as int] == new));
                    }
                    if same {
                        known = true;
                    }
                    j += 1;
                }
                if !known {
                    cores.push((physical, core));
                    proof {
                        assert(core_list(cores@) =~= before.push(new));
                        lemma_push_set(before, new);
                    }
                } else {
                    proof {
                        assert(before.to_set().contains(new)) by {
                            let k = choose|k: int|
                                0 <= k < before.len() && #[trigger] before[k] == new;
                            assert(before.contains(new));
                        }
                        assert(before.to_set().insert(new) =~= before.to_set());
                    }
                }
            }
        }
        i += 1;
    }
    proof {
        assert(all.take(all.len() as int) =~= all);
        core_list(cores@).unique_seq_to_set();
        vstd::seq_lib::seq_to_set_is_finite(core_list(cores@));
    }
    if cores.len() == 0 {
        None
    } else {
        Some(cores.len())
    }
}

/// What a tool printed, without the white space around it; nothing where it
/// failed or printed nothing else.
pub fn usable_output(success: bool, printed: &str) -> (output: Option<String>)
    ensures
        match output {
            Some(text) => success && text@ == trimmed(printed@) && text@.len() > 0,
            None => !success || trimmed(printed@).len() == 0,
        },
{
    if !success {
        return None;
    }
    let text = trim(chars_of(printed).as_slice());
    if text.len() == 0 {
        None
    } else {
        Some(text_of(text.as_slice()))
    }
}

/// The source and the file system that a line of the form `source type` names.
pub fn mount_of(line: &str) -> (mount: Option<(String, String)>)
    ensures
        match next_index(line@, ' ', 0) {
            Some(i) => mount matches Some((source, filesystem)) && source@ == line@.take(i)
                && filesystem@ == trimmed(line@.skip(i + 1)),
            None => mount is None,
        },
{
    let chars = chars_of(line);
    match find_next(chars.as_slice(), ' ', 0) {
        Some(i) => {
            let n: usize = chars.len();
            let source = part(chars.as_slice(), 0, i);
            let rest = part(chars.as_slice(), i + 1, n);
            proof {
                assert(source@ =~= line@.take(i as int));
                assert(rest@ =~= line@.skip(i + 1));
            }
            let filesystem = trim(rest.as_slice());
            Some((text_of(source.as_slice()), text_of(filesystem.as_slice())))
        },
        None => None,
    }
}

/// Whether a device is rotational, from the flag that is printed for it.
pub fn rotational_flag(value: &str) -> (flag: Option<bool>)
    ensures
        flag == if trimmed(value@) == seq!['0'] {
            Some(false)
        } else if trimmed(value@) == seq!['1'] {
            Some(true)
        } else {
            None
        },
{
    let text = trim(chars_of(value).as_slice());
    if text.len() == 1 && text[0] == '0' {
        proof {
            assert(text@ =~= seq!['0']);
        }
        Some(false)
    } else if text.len() == 1 && text[0] == '1' {
        proof {
            assert(text@ =~= seq!['1']);
            assert(seq!['1'][0] != seq!['0'][0]);
        }
        Some(true)
    } else {
        None
    }
}

/// The machine that a benchmark ran on.
#[derive(Debug, Clone, PartialEq, Eq)]
pub struct HostInfo {
    pub cpu_model: Option<String>,
    pub logical_cpus: usize,
    pub physical_cores: Option<usize>,
    pub memory_total_bytes: Option<u64>,
    pub kernel: Option<String>,
    pub rustc: Option<String>,
    pub filesystem: Option<String>,
    pub storage_source: Option<String>,
    pub storage_rotational: Option<bool>,
}

/// The raw texts that a machine describes itself with. What could not be read
/// is missing.
#[derive(Debug, Clone, PartialEq, Eq)]
pub struct HostTexts {
    pub cpuinfo: Option<String>,
    pub meminfo: Option<String>,
    /// A line with the source and the file system of the model's mount.
    pub mount: Option<String>,
    /// The rotational flag of the mount's source.
    pub rotational: Option<String>,
    pub logical_cpus: Option<usize>,
    pub kernel: Option<String>,
    pub rustc: Option<String>,
}

/// The value of a key in a text that may be missing.
pub open spec fn optional_value(text: Option<String>, key: Seq<char>) -> Option<Seq<char>> {
    match text {
        Some(text) => first_colon_value(lines(text@), key),
        None => None,
    }
}

/// The number of a key in a text that may be missing.
pub open spec fn optional_number(text: Option<String>, key: Seq<char>) -> Option<nat> {
    match text {
        Some(text) => first_line_number(lines(text@), key),
        None => None,
    }
}

impl HostInfo {
    /// What the texts of a machine say. The mount is read only where its line
    /// has two parts, and the rotational flag only where the mount is read.
    pub fn detect(texts: HostTexts) -> (info: HostInfo)
        requires
            optional_number(texts.meminfo, "MemTotal:"@) matches Some(n) ==> n * 1024 <= u64::MAX,
        ensures
            match (info.cpu_model, optional_value(texts.cpuinfo, "model name"@)) {
                (Some(model), Some(value)) => model@ == value,
                (None, None) => true,
                _ => false,
            },
            info.physical_cores == match texts.cpuinfo {
                Some(text) => if cores_of(blocks(text@)).len() == 0 {
                    None::<usize>
                } else {
                    Some(cores_of(blocks(text@)).len() as usize)
                },
                None => None,
            },
            info.memory_total_bytes == match optional_number(texts.meminfo, "MemTotal:"@) {
                Some(n) => Some((n * 1024) as u64),
                None => None,
            },
            info.logical_cpus == match texts.logical_cpus {
                Some(n) => n,
                None => 1,
            },
            info.kernel == texts.kernel,
            info.rustc == texts.rustc,
            match texts.mount {
                Some(line) => match next_index(line@, ' ', 0) {
                    Some(i) => {
                        &&& info.storage_source matches Some(source)
                        &&& source@ == line@.take(i)
                        &&& info.filesystem matches Some(filesystem)
                        &&& filesystem@ == trimmed(line@.skip(i + 1))
                        &&& info.storage_rotational == match texts.rotational {
                            Some(flag) => if trimmed(flag@) == seq!['0'] {
                                Some(false)
                            } else if trimmed(flag@) == seq!['1'] {
                                Some(true)
                            } else {
                                None
                            },
                            None => None,
                        }
                    },
                    None => info.storage_source is None && info.filesystem is None
                        && info.storage_rotational is None,
                },
                None => info.storage_source is None && info.filesystem is None
                    && info.storage_rotational is None,
            },
    {
        let mut cpu_model: Option<String> = None;
        let mut physical_cores: Option<usize> = None;
        if let Some(text) = &texts.cpuinfo {
            cpu_model = value_after_colon(text.as_str(), "model name");
            physical_cores = physical_core_count(text.as_str());
        }
        let mut memory_total_bytes: Option<u64> = None;
        if let Some(text) = &texts.meminfo {
            memory_total_bytes = kib_value(text.as_str(), "MemTotal:");
        }
        let mut storage_source: Option<String> = None;
        let mut filesystem: Option<String> = None;
        let mut storage_rotational: Option<bool> = None;
        if let Some(line) = &texts.mount {
            if let Some((source, kind)) = mount_of(line.as_str()) {
                storage_source = Some(source);
                filesystem = Some(kind);
                if let Some(flag) = &texts.rotational {
                    storage_rotational = rotational_flag(flag.as_str());
                }
            }
        }
        let logical_cpus: usize = match texts.logical_cpus {
            Some(n) => n,
            None => 1,
        };
        HostInfo {
            cpu_model,
            logical_cpus,
            physical_cores,
            memory_total_bytes,
            kernel: texts.kernel,
            rustc: texts.rustc,
            filesystem,
            storage_source,
            storage_rotational,
        }
    }
}

/// The counters of a process at one moment.
#[derive(Debug, Clone, Copy, PartialEq, Eq)]
pub struct ProcessSnapshot {
    pub resident_bytes: Option<u64>,
    pub peak_resident_bytes: Option<u64>,
    pub minor_faults: Option<u64>,
    pub major_faults: Option<u64>,
    pub read_bytes: Option<u64>,
    pub write_bytes: Option<u64>,
}

/// What happened to a process between two moments.
#[derive(Debug, Clone, Copy, PartialEq, Eq)]
pub struct ProcessDelta {
    pub resident_bytes_before: Option<u64>,
    pub resident_bytes_after: Option<u64>,
    pub peak_resident_bytes: Option<u64>,
    pub minor_faults: Option<u64>,
    pub major_faults: Option<u64>,
    pub read_bytes: Option<u64>,
    pub write_bytes: Option<u64>,
}

impl Default for ProcessSnapshot {
    fn default() -> (snapshot: Self)
        ensures
            snapshot == (ProcessSnapshot {
                resident_bytes: None,
                peak_resident_bytes: None,
                minor_faults: None,
                major_faults: None,
                read_bytes: None,
                write_bytes: None,
            }),
    {
        ProcessSnapshot {
            resident_bytes: None,
            peak_resident_bytes: None,
            minor_faults: None,
            major_faults: None,
            read_bytes: None,
            write_bytes: None,
        }
    }
}

/// A number of units of 1024 bytes as it is read.
pub open spec fn is_kib(found: Option<u64>, n: Option<nat>) -> bool {
    match (found, n) {
        (Some(a), Some(b)) => a == b * 1024,
        (None, None) => true,
        _ => false,
    }
}

impl ProcessSnapshot {
    /// The counters that the texts of `/proc/self/status`, `/proc/self/stat`
    /// and `/proc/self/io` give.
    pub fn capture(status: &str, stat: &str, io: &str) -> (snapshot: ProcessSnapshot)
        requires
            first_line_number(lines(status@), "VmRSS:"@) matches Some(n) ==> n * 1024 <= u64::MAX,
            first_line_number(lines(status@), "VmHWM:"@) matches Some(n) ==> n * 1024 <= u64::MAX,
        ensures
            is_kib(snapshot.resident_bytes, first_line_number(lines(status@), "VmRSS:"@)),
            is_kib(snapshot.peak_resident_bytes, first_line_number(lines(status@), "VmHWM:"@)),
            match last_bracket(stat@) {
                None => snapshot.minor_faults is None && snapshot.major_faults is None,
                Some(i) => {
                    &&& is_count(snapshot.minor_faults, nth_number(words(stat@.skip(i + 2)), 7))
                    &&& is_count(snapshot.major_faults, nth_number(words(stat@.skip(i + 2)), 9))
                },
            },
            is_count(snapshot.read_bytes, first_line_number(lines(io@), "read_bytes:"@)),
            is_count(snapshot.write_bytes, first_line_number(lines(io@), "write_bytes:"@)),
    {
        let (minor_faults, major_faults) = parse_faults(stat);
        ProcessSnapshot {
            resident_bytes: kib_value(status, "VmRSS:"),
            peak_resident_bytes: kib_value(status, "VmHWM:"),
            minor_faults,
            major_faults,
            read_bytes: integer_value(io, "read_bytes:"),
            write_bytes: integer_value(io, "write_bytes:"),
        }
    }

    /// What happened between this moment and a later one. A counter that fell
    /// counts as unchanged.
    pub fn delta(&self, after: &ProcessSnapshot) -> (delta: ProcessDelta)
        ensures
            delta == (ProcessDelta {
                resident_bytes_before: self.resident_bytes,
                resident_bytes_after: after.resident_bytes,
                peak_resident_bytes: after.peak_resident_bytes,
                minor_faults: rise(self.minor_faults, after.minor_faults),
                major_faults: rise(self.major_faults, after.major_faults),
                read_bytes: rise(self.read_bytes, after.read_bytes),
                write_bytes: rise(self.write_bytes, after.write_bytes),
            }),
    {
        ProcessDelta {
            resident_bytes_before: self.resident_bytes,
            resident_bytes_after: after.resident_bytes,
            peak_resident_bytes: after.peak_resident_bytes,
            minor_faults: difference(self.minor_faults, after.minor_faults),
            major_faults: difference(self.major_faults, after.major_faults),
            read_bytes: difference(self.read_bytes, after.read_bytes),
            write_bytes: difference(self.write_bytes, after.write_bytes),
        }
    }
}

} // verus!
