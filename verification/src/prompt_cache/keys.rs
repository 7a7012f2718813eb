//! Where entries may stand in a prompt, and what their files are called.

use crate::ngram::{fnv1a, fnv1a_tokens};
use crate::prompt_cache::format::EXTENSION;
use crate::text::{
    chars_of, find_last, find_next, last_index, lemma_last_index, lemma_next_index,
    lemma_next_index_at, next_index, number_text, numeral, padded_numeral_round_trips,
    parse_number, parsed_number, same_chars, text_of, zero_padded,
};
use vstd::prelude::*;

verus! {

/// Whether an entry may be stored at, or looked up from, token `b` of a prompt
/// of `len` tokens: a positive multiple of the block size, of at least `min`
/// tokens. It is strictly below `len` because a restored session still has to
/// evaluate at least one token to produce logits.
pub open spec fn is_boundary(b: int, len: int, block: int, min: int) -> bool {
    &&& block > 0
    &&& 0 < b < len
    &&& b % block == 0
    &&& b >= min
}

/// Storing at multiples of the block size costs at most one block: a prompt that
/// is a block longer than the shortest prefix worth an entry has a boundary
/// that leaves no more than a block of it.
pub proof fn at_most_one_block_is_prefilled_again(len: int, block: int, min: int) -> (b: int)
    requires
        0 < block <= min,
        min + block <= len,
    ensures
        is_boundary(b, len, block, min),
        len - b <= block,
{
    let blocks = (len - 1) / block;
    let b = block * blocks;
    vstd::arithmetic::div_mod::lemma_fundamental_div_mod(len - 1, block);
    vstd::arithmetic::div_mod::lemma_mod_multiples_basic(blocks, block);
    vstd::arithmetic::mul::lemma_mul_is_commutative(block, blocks);
    b
}

/// Two prompts that share a preamble have the same keys at every boundary
/// within it, however they go on.
pub proof fn a_shared_preamble_lands_on_the_same_keys(
    prompt: Seq<u32>,
    other: Seq<u32>,
    shared: int,
    b: int,
)
    requires
        0 <= b <= shared,
        shared <= prompt.len(),
        shared <= other.len(),
        prompt.take(shared) == other.take(shared),
    ensures
        EntryKey::spec_of(prompt.take(b)) == EntryKey::spec_of(other.take(b)),
{
    assert(prompt.take(b) =~= prompt.take(shared).take(b));
    assert(other.take(b) =~= other.take(shared).take(b));
}

/// Boundaries an entry may be stored at or looked up from, longest first.
pub fn boundaries(len: usize, block: usize, min: usize) -> (found: Vec<usize>)
    ensures
        forall|i: int|
            0 <= i < found@.len() ==> is_boundary(
                #[trigger] found@[i] as int,
                len as int,
                block as int,
                min as int,
            ),
        forall|b: int| #[trigger]
            is_boundary(b, len as int, block as int, min as int) ==> found@.contains(b as usize),
        forall|i: int, j: int| 0 <= i < j < found@.len() ==> found@[i] > found@[j],
{
    let mut found: Vec<usize> = Vec::new();
    if block == 0 || len == 0 {
        return found;
    }
    let blocks: usize = (len - 1) / block;
    proof {
        vstd::arithmetic::div_mod::lemma_fundamental_div_mod(len - 1, block as int);
        assert(blocks * block <= len - 1) by (nonlinear_arith)
            requires
                len - 1 == block * blocks + (len - 1) % (block as int),
                (len - 1) % (block as int) >= 0,
        ;
        assert forall|b: int| #[trigger]
            is_boundary(b, len as int, block as int, min as int) implies b <= blocks * block by {
            vstd::arithmetic::div_mod::lemma_fundamental_div_mod(b, block as int);
            vstd::arithmetic::div_mod::lemma_div_is_ordered(b, len - 1, block as int);
            assert(b <= blocks * block) by (nonlinear_arith)
                requires
                    b == block * (b / (block as int)),
                    b / (block as int) <= blocks,
                    block > 0,
            ;
        }
    }
    let mut k: usize = blocks;
    while k > 0 && k * block >= min
        invariant
            block > 0,
            len > 0,
            k <= blocks,
            blocks * block <= len - 1,
            k * block <= len - 1,
            forall|i: int|
                0 <= i < found@.len() ==> is_boundary(
                    #[trigger] found@[i] as int,
                    len as int,
                    block as int,
                    min as int,
                ) && found@[i] > k * block,
            forall|b: int| #[trigger]
                is_boundary(b, len as int, block as int, min as int) && b > k * block
                    ==> found@.contains(b as usize),
            forall|i: int, j: int| 0 <= i < j < found@.len() ==> found@[i] > found@[j],
        decreases k,
    {
        let boundary: usize = k * block;
        let ghost before = found@;
        found.push(boundary);
        proof {
            vstd::arithmetic::div_mod::lemma_mod_multiples_basic(k as int, block as int);
            assert(0 < k * block && (k - 1) * block < k * block && (k - 1) * block == k * block
                - block) by (nonlinear_arith)
                requires
                    k > 0,
                    block > 0,
            ;
            assert forall|b: int| #[trigger]
                is_boundary(b, len as int, block as int, min as int) && b > (k - 1)
                    * block implies found@.contains(b as usize) by {
                if b > k * block {
                    let i = choose|i: int| 0 <= i < before.len() && before[i] == b as usize;
                    assert(found@[i] == b as usize);
                } else {
                    vstd::arithmetic::div_mod::lemma_fundamental_div_mod(b, block as int);
                    assert(b == k * block) by (nonlinear_arith)
                        requires
                            b == block * (b / (block as int)),
                            (k - 1) * block < b <= k * block,
                            block > 0,
                    ;
                    assert(found@[found@.len() - 1] == b as usize);
                }
            }
        }
        k -= 1;
        proof {
            assert(k * block <= len - 1);
        }
    }
    proof {
        assert forall|b: int| #[trigger]
            is_boundary(b, len as int, block as int, min as int) implies found@.contains(
            b as usize,
        ) by {
            if k == 0 {
                assert(0 * block == 0) by (nonlinear_arith);
            }
        }
    }
    found
}

/// The longest prefix worth storing: not beyond what the caller expects to
/// recur, nor beyond the prompt.
pub open spec fn store_ceiling(len: int, stable: Option<usize>) -> int {
    match stable {
        Some(stable) => if stable < len {
            stable as int
        } else {
            len
        },
        None => len,
    }
}

/// The highest boundary that is not above a ceiling, if there is any: the last
/// multiple of the block size there, where it is worth an entry.
pub open spec fn highest_boundary(len: int, ceiling: int, block: int, min: int) -> Option<int> {
    let last = if ceiling < len {
        ceiling
    } else {
        len - 1
    };
    let top = last / block * block;
    if is_boundary(top, len, block, min) {
        Some(top)
    } else {
        None
    }
}

/// The highest boundary is not above the ceiling.
proof fn lemma_highest_is_within(len: int, ceiling: int, block: int, min: int)
    ensures
        highest_boundary(len, ceiling, block, min) matches Some(top) ==> top <= ceiling,
{
    let last = if ceiling < len {
        ceiling
    } else {
        len - 1
    };
    if block > 0 {
        vstd::arithmetic::div_mod::lemma_fundamental_div_mod(last, block);
        vstd::arithmetic::mul::lemma_mul_is_commutative(last / block, block);
    }
}

/// No boundary below the ceiling is higher than the highest.
pub proof fn no_boundary_is_higher(len: int, ceiling: int, block: int, min: int, b: int)
    requires
        is_boundary(b, len, block, min),
        b <= ceiling,
    ensures
        highest_boundary(len, ceiling, block, min) matches Some(top) && b <= top <= ceiling,
{
    let last = if ceiling < len {
        ceiling
    } else {
        len - 1
    };
    let top = last / block * block;
    vstd::arithmetic::div_mod::lemma_fundamental_div_mod(last, block);
    vstd::arithmetic::div_mod::lemma_fundamental_div_mod(b, block);
    vstd::arithmetic::div_mod::lemma_div_is_ordered(b, last, block);
    vstd::arithmetic::div_mod::lemma_mod_multiples_basic(last / block, block);
    assert(b <= top <= last) by (nonlinear_arith)
        requires
            block > 0,
            b == block * (b / block),
            b / block <= last / block,
            last == block * (last / block) + last % block,
            last % block >= 0,
            top == last / block * block,
    ;
}

/// The boundary this request should leave behind, if any.
///
/// `stable` is how much of the prompt the caller expects a later request to
/// repeat: for a conversation, everything before its final message. Storing
/// above that point produces an entry keyed on tokens no other request will
/// send, so the boundary is capped there when the caller knows it.
///
/// Nothing is stored when the reused prefix already reaches the highest
/// usable boundary: the entry that would be written is the one just read.
pub fn store_boundary(
    len: usize,
    reused: usize,
    stable: Option<usize>,
    block: usize,
    min: usize,
) -> (boundary: Option<usize>)
    ensures
        ({
            let highest = highest_boundary(
                len as int,
                store_ceiling(len as int, stable),
                block as int,
                min as int,
            );
            match boundary {
                Some(b) => highest == Some(b as int) && b > reused,
                None => highest is None || highest->0 <= reused,
            }
        }),
{
    let ceiling: usize = match stable {
        Some(stable) => if stable < len {
            stable
        } else {
            len
        },
        None => len,
    };
    let found = boundaries(len, block, min);
    let mut i: usize = 0;
    while i < found.len()
        invariant
            i <= found@.len(),
            ceiling == store_ceiling(len as int, stable),
            forall|i: int|
                0 <= i < found@.len() ==> is_boundary(
                    #[trigger] found@[i] as int,
                    len as int,
                    block as int,
                    min as int,
                ),
            forall|b: int| #[trigger]
                is_boundary(b, len as int, block as int, min as int) ==> found@.contains(
                    b as usize,
                ),
            forall|i: int, j: int| 0 <= i < j < found@.len() ==> found@[i] > found@[j],
            forall|j: int| 0 <= j < i ==> #[trigger] found@[j] > ceiling,
        decreases found@.len() - i,
    {
        if found[i] <= ceiling {
            proof {
                no_boundary_is_higher(
                    len as int,
                    ceiling as int,
                    block as int,
                    min as int,
                    found@[i as int] as int,
                );
                let top = highest_boundary(len as int, ceiling as int, block as int, min as int)->0;
                assert(found@.contains(top as usize));
                let j = choose|j: int| 0 <= j < found@.len() && found@[j] == top as usize;
                assert(found@[j] == top as usize);
                assert(top == found@[i as int]);
            }
            if found[i] > reused {
                return Some(found[i]);
            }
            return None;
        }
        i += 1;
    }
    proof {
        match highest_boundary(len as int, ceiling as int, block as int, min as int) {
            Some(top) => {
                assert(found@.contains(top as usize));
                let j = choose|j: int| 0 <= j < found@.len() && found@[j] == top as usize;
                assert(found@[j] == top as usize);
                lemma_highest_is_within(len as int, ceiling as int, block as int, min as int);
            },
            None => {},
        }
    }
    None
}

/// What an entry is found by: the length of its prefix and a hash of it.
#[derive(Debug, Clone, Copy, PartialEq, Eq, Hash, Structural)]
pub struct EntryKey {
    pub tokens: usize,
    pub hash: u64,
}

/// The identifying half of a layout fingerprint: what follows its last colon.
pub open spec fn short_form(fingerprint: Seq<char>) -> Seq<char> {
    match last_index(fingerprint, ':') {
        Some(i) => fingerprint.skip(i + 1),
        None => fingerprint,
    }
}

/// The identifying half of a layout fingerprint, for use in a file name.
pub fn short_fingerprint(fingerprint: &str) -> (short: String)
    ensures
        short@ == short_form(fingerprint@),
{
    let chars = chars_of(fingerprint);
    let total: usize = chars.len();
    match find_last(chars.as_slice(), ':') {
        Some(i) => {
            let rest = vstd::slice::slice_subrange(chars.as_slice(), i + 1, total);
            proof {
                assert(rest@ =~= chars@.skip(i + 1));
            }
            text_of(rest)
        },
        None => fingerprint.to_owned(),
    }
}

/// The name of an entry's file, without its extension.
pub open spec fn entry_stem(key: EntryKey, fingerprint: Seq<char>) -> Seq<char> {
    short_form(fingerprint) + "-"@ + zero_padded(numeral(key.tokens as nat, 10), 8) + "-"@
        + zero_padded(numeral(key.hash as nat, 16), 16)
}

/// The name of an entry's file.
pub open spec fn entry_name(key: EntryKey, fingerprint: Seq<char>) -> Seq<char> {
    entry_stem(key, fingerprint) + "."@ + EXTENSION@
}

impl EntryKey {
    /// The key of a sequence of tokens.
    pub open spec fn spec_of(tokens: Seq<u32>) -> EntryKey {
        EntryKey { tokens: tokens.len() as usize, hash: fnv1a(tokens) }
    }

    /// The key of a prefix.
    pub fn of(tokens: &[u32]) -> (key: Self)
        ensures
            key == EntryKey::spec_of(tokens@),
    {
        EntryKey { tokens: tokens.len(), hash: fnv1a_tokens(tokens) }
    }

    /// The name of the file that holds this entry: `<fingerprint>-<tokens>-<hash>`
    /// and the extension.
    pub fn file_name(&self, fingerprint: &str) -> (name: String)
        ensures
            name@ == entry_name(*self, fingerprint@),
    {
        let mut name = short_fingerprint(fingerprint);
        name.append("-");
        name.append(number_text(self.tokens as u64, 10, 8).as_str());
        name.append("-");
        name.append(number_text(self.hash, 16, 16).as_str());
        name.append(".");
        name.append(EXTENSION);
        name
    }
}

/// A file name without its extension.
pub open spec fn stem_of(name: Seq<char>) -> Seq<char> {
    match last_index(name, '.') {
        Some(i) => if i == 0 {
            name
        } else {
            name.take(i)
        },
        None => name,
    }
}

/// The extension of a file name: what follows its last dot, where that is not
/// its first character.
pub open spec fn extension_of(name: Seq<char>) -> Option<Seq<char>> {
    match last_index(name, '.') {
        Some(i) => if i == 0 {
            None
        } else {
            Some(name.skip(i + 1))
        },
        None => None,
    }
}

/// Whether a file name has the given extension.
pub fn has_extension(name: &str, extension: &str) -> (has: bool)
    ensures
        has == (extension_of(name@) == Some(extension@)),
{
    let chars = chars_of(name);
    let total: usize = chars.len();
    match find_last(chars.as_slice(), '.') {
        Some(i) => {
            if i == 0 {
                return false;
            }
            let rest = vstd::slice::slice_subrange(chars.as_slice(), i + 1, total);
            proof {
                assert(rest@ =~= chars@.skip(i + 1));
            }
            let expected = chars_of(extension);
            same_chars(rest, expected.as_slice())
        },
        None => false,
    }
}

/// Whether a file name is that of an entry, of this checkpoint or another.
pub fn is_entry(name: &str) -> (entry: bool)
    ensures
        entry == (extension_of(name@) == Some(EXTENSION@)),
{
    has_extension(name, EXTENSION)
}

/// The key that a file name spells for the checkpoint with this fingerprint:
/// three parts between dashes, of which the first is the short fingerprint, the
/// second a decimal token count and the third a hexadecimal hash.
pub open spec fn named_key(name: Seq<char>, fingerprint: Seq<char>) -> Option<EntryKey> {
    let stem = stem_of(name);
    match next_index(stem, '-', 0) {
        None => None,
        Some(i) => match next_index(stem, '-', i + 1) {
            None => None,
            Some(j) => if next_index(stem, '-', j + 1) is Some || stem.take(i) != short_form(
                fingerprint,
            ) {
                None
            } else {
                match (
                    parsed_number(stem.subrange(i + 1, j), 10, usize::MAX as nat),
                    parsed_number(stem.skip(j + 1), 16, u64::MAX as nat),
                ) {
                    (Some(tokens), Some(hash)) => Some(
                        EntryKey { tokens: tokens as usize, hash: hash as u64 },
                    ),
                    _ => None,
                }
            },
        },
    }
}

/// `<fingerprint>-<tokens>-<hash>.inferq-prompt`, and only for this model.
pub fn parse_file_name(name: &str, fingerprint: &str) -> (key: Option<EntryKey>)
    ensures
        key == named_key(name@, fingerprint@),
{
    let chars = chars_of(name);
    let end: usize = match find_last(chars.as_slice(), '.') {
        Some(i) => if i == 0 {
            chars.len()
        } else {
            i
        },
        None => chars.len(),
    };
    let stem = vstd::slice::slice_subrange(chars.as_slice(), 0, end);
    proof {
        assert(stem@ =~= stem_of(name@));
    }
    let i: usize = match find_next(stem, '-', 0) {
        Some(i) => i,
        None => {
            return None;
        },
    };
    let j: usize = match find_next(stem, '-', i + 1) {
        Some(j) => j,
        None => {
            return None;
        },
    };
    if find_next(stem, '-', j + 1).is_some() {
        return None;
    }
    let short = short_fingerprint(fingerprint);
    let expected = chars_of(short.as_str());
    let first = vstd::slice::slice_subrange(stem, 0, i);
    let second = vstd::slice::slice_subrange(stem, i + 1, j);
    let third = vstd::slice::slice_subrange(stem, j + 1, stem.len());
    proof {
        assert(first@ =~= stem@.take(i as int));
        assert(third@ =~= stem@.skip(j + 1));
    }
    if !same_chars(first, expected.as_slice()) {
        return None;
    }
    let tokens: u64 = match parse_number(second, 10) {
        Some(tokens) => tokens,
        None => {
            return None;
        },
    };
    if tokens > usize::MAX as u64 {
        return None;
    }
    let hash: u64 = match parse_number(third, 16) {
        Some(hash) => hash,
        None => {
            return None;
        },
    };
    Some(EntryKey { tokens: tokens as usize, hash })
}

/// Before an extension without a dot stands the stem.
proof fn lemma_last_dot(stem: Seq<char>, extension: Seq<char>)
    requires
        stem.len() > 0,
        forall|i: int| 0 <= i < extension.len() ==> #[trigger] extension[i] != '.',
    ensures
        stem_of(stem + seq!['.'] + extension) == stem,
        extension_of(stem + seq!['.'] + extension) == Some(extension),
{
    let name = stem + seq!['.'] + extension;
    let dot = stem.len() as int;
    assert(name[dot] == '.');
    assert forall|j: int| dot < j < name.len() implies #[trigger] name[j] != '.' by {
        assert(name[j] == extension[j - dot - 1]);
    }
    lemma_last_index(name, '.');
    assert(name.take(dot) =~= stem);
    assert(name.skip(dot + 1) =~= extension);
}

/// Two dashes stand between three parts that have none.
proof fn lemma_dashes(a: Seq<char>, b: Seq<char>, c: Seq<char>)
    requires
        forall|i: int| 0 <= i < a.len() ==> #[trigger] a[i] != '-',
        forall|i: int| 0 <= i < b.len() ==> #[trigger] b[i] != '-',
        forall|i: int| 0 <= i < c.len() ==> #[trigger] c[i] != '-',
    ensures
        ({
            let stem = a + seq!['-'] + b + seq!['-'] + c;
            let i = a.len() as int;
            let j = i + 1 + b.len();
            &&& next_index(stem, '-', 0) == Some(i)
            &&& next_index(stem, '-', i + 1) == Some(j)
            &&& next_index(stem, '-', j + 1) is None
            &&& stem.take(i) == a
            &&& stem.subrange(i + 1, j) == b
            &&& stem.skip(j + 1) == c
        }),
{
    let stem = a + seq!['-'] + b + seq!['-'] + c;
    let i = a.len() as int;
    let j = i + 1 + b.len();
    assert(stem.len() == j + 1 + c.len());
    assert forall|k: int| 0 <= k < i implies #[trigger] stem[k] != '-' by {
        assert(stem[k] == a[k]);
    }
    assert(stem[i] == '-');
    assert forall|k: int| i + 1 <= k < j implies #[trigger] stem[k] != '-' by {
        assert(stem[k] == b[k - i - 1]);
    }
    assert(stem[j] == '-');
    assert forall|k: int| j + 1 <= k < stem.len() implies #[trigger] stem[k] != '-' by {
        assert(stem[k] == c[k - j - 1]);
    }
    lemma_next_index_at(stem, '-', 0, i);
    lemma_next_index_at(stem, '-', i + 1, j);
    lemma_next_index(stem, '-', j + 1);
    assert(stem.take(i) =~= a);
    assert(stem.subrange(i + 1, j) =~= b);
    assert(stem.skip(j + 1) =~= c);
}

/// The parts of an entry's file name.
proof fn lemma_name_parts(key: EntryKey, fingerprint: Seq<char>)
    ensures
        ({
            let b = zero_padded(numeral(key.tokens as nat, 10), 8);
            let c = zero_padded(numeral(key.hash as nat, 16), 16);
            &&& entry_stem(key, fingerprint) == short_form(fingerprint) + seq!['-'] + b + seq!['-']
                + c
            &&& entry_name(key, fingerprint) == entry_stem(key, fingerprint) + seq!['.']
                + EXTENSION@
        }),
        forall|i: int| 0 <= i < EXTENSION@.len() ==> #[trigger] EXTENSION@[i] != '.',
{
    reveal_strlit("-");
    reveal_strlit(".");
    reveal_strlit("inferq-prompt");
    assert("-"@ =~= seq!['-']);
    assert("."@ =~= seq!['.']);
}

/// A file name leads back to the key it was made from, under any fingerprint
/// whose short form has no dash.
pub proof fn file_names_lead_back_to_their_key(key: EntryKey, fingerprint: Seq<char>)
    requires
        forall|i: int|
            0 <= i < short_form(fingerprint).len() ==> #[trigger] short_form(fingerprint)[i] != '-',
    ensures
        named_key(entry_name(key, fingerprint), fingerprint) == Some(key),
        extension_of(entry_name(key, fingerprint)) == Some(EXTENSION@),
{
    let a = short_form(fingerprint);
    let b = zero_padded(numeral(key.tokens as nat, 10), 8);
    let c = zero_padded(numeral(key.hash as nat, 16), 16);
    padded_numeral_round_trips(key.tokens as nat, 10, 8, usize::MAX as nat);
    padded_numeral_round_trips(key.hash as nat, 16, 16, u64::MAX as nat);
    lemma_name_parts(key, fingerprint);
    lemma_dashes(a, b, c);
    lemma_last_dot(entry_stem(key, fingerprint), EXTENSION@);
}

/// Under another short fingerprint the name of an entry leads nowhere.
pub proof fn file_names_belong_to_one_fingerprint(
    key: EntryKey,
    fingerprint: Seq<char>,
    other: Seq<char>,
)
    requires
        forall|i: int|
            0 <= i < short_form(fingerprint).len() ==> #[trigger] short_form(fingerprint)[i] != '-',
        short_form(other) != short_form(fingerprint),
    ensures
        named_key(entry_name(key, fingerprint), other) is None,
{
    file_names_lead_back_to_their_key(key, fingerprint);
}

} // verus!
