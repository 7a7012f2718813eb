//! What the benchmark of the multi-row kernels times: which kernels, which
//! matrices, which inputs, and which of its samples it reports.

use crate::order::{arranges, key_ordered, order_by_key};
use crate::text::{
    ascii_lower, chars_of, decimal, decimal_text, find_last, find_next, last_index, lower,
    next_index, parse_number, parsed_number, same_chars, text_of, texts,
};
use crate::words::part;
use vstd::prelude::*;

verus! {

/// How a matrix is multiplied with several rows.
#[derive(Debug, Clone, Copy, PartialEq, Eq, Structural)]
pub enum MultiRowPath {
    Candle,
    SmallM,
    Fused,
    FusedTiled,
}

/// A text with its ASCII capitals made small.
pub open spec fn lowered(s: Seq<char>) -> Seq<char> {
    s.map_values(|c: char| ascii_lower(c))
}

/// A text with its ASCII capitals made small.
fn lower_text(s: &str) -> (text: Vec<char>)
    ensures
        text@ == lowered(s@),
{
    let characters: Vec<char> = chars_of(s);
    let n: usize = characters.len();
    let mut text: Vec<char> = Vec::new();
    let mut i: usize = 0;
    while i < n
        invariant
            i <= n,
            n == characters@.len(),
            characters@ == s@,
            text@.len() == i,
            forall|k: int| 0 <= k < i ==> #[trigger] text@[k] == ascii_lower(s@[k]),
        decreases n - i,
    {
        text.push(lower(characters[i]));
        i += 1;
    }
    proof {
        assert(text@ =~= lowered(s@));
    }
    text
}

/// The kernel of the given name, in capitals or not.
pub open spec fn kernel_named(name: Seq<char>) -> Option<MultiRowPath> {
    let name = lowered(name);
    if name == "candle"@ {
        Some(MultiRowPath::Candle)
    } else if name == "smallm"@ || name == "small_m"@ {
        Some(MultiRowPath::SmallM)
    } else if name == "fused"@ {
        Some(MultiRowPath::Fused)
    } else if name == "tiled"@ || name == "fusedtiled"@ || name == "fused_tiled"@ {
        Some(MultiRowPath::FusedTiled)
    } else {
        None
    }
}

/// Whether characters spell the given text.
fn spells(characters: &Vec<char>, text: &str) -> (same: bool)
    ensures
        same == (characters@ == text@),
{
    let wanted: Vec<char> = chars_of(text);
    same_chars(characters.as_slice(), wanted.as_slice())
}

/// The kernel of the given name; an unknown name is handed back in small
/// letters.
pub fn parse_path(name: &str) -> (path: Result<MultiRowPath, String>)
    ensures
        match path {
            Ok(path) => kernel_named(name@) == Some(path),
            Err(unknown) => kernel_named(name@) is None && unknown@ == lowered(name@),
        },
{
    let text: Vec<char> = lower_text(name);
    if spells(&text, "candle") {
        Ok(MultiRowPath::Candle)
    } else if spells(&text, "smallm") || spells(&text, "small_m") {
        Ok(MultiRowPath::SmallM)
    } else if spells(&text, "fused") {
        Ok(MultiRowPath::Fused)
    } else if spells(&text, "tiled") || spells(&text, "fusedtiled") || spells(
        &text,
        "fused_tiled",
    ) {
        Ok(MultiRowPath::FusedTiled)
    } else {
        Err(text_of(text.as_slice()))
    }
}

/// The kernels among the first `n` that can take the given number of rows: a
/// single row leaves only the first kind.
pub open spec fn usable(paths: Seq<MultiRowPath>, rows: usize, n: int) -> Seq<MultiRowPath>
    decreases n,
{
    if n <= 0 {
        Seq::empty()
    } else if rows >= 2 || paths[n - 1] == MultiRowPath::Candle {
        usable(paths, rows, n - 1).push(paths[n - 1])
    } else {
        usable(paths, rows, n - 1)
    }
}

/// The kernels that can take the given number of rows, in their order.
pub fn usable_paths(paths: &[MultiRowPath], rows: usize) -> (kept: Vec<MultiRowPath>)
    ensures
        kept@ == usable(paths@, rows, paths@.len() as int),
{
    let n: usize = paths.len();
    let mut kept: Vec<MultiRowPath> = Vec::new();
    let mut i: usize = 0;
    while i < n
        invariant
            i <= n,
            n == paths@.len(),
            kept@ == usable(paths@, rows, i as int),
        decreases n - i,
    {
        if rows >= 2 || paths[i] == MultiRowPath::Candle {
            kept.push(paths[i]);
        }
        i += 1;
    }
    kept
}

/// Which matrix is timed.
#[derive(Debug, Clone, PartialEq, Eq)]
pub enum MatrixChoice {
    /// A tensor of its own.
    Whole(String),
    /// One expert of a fused tensor.
    Expert { name: String, expert: usize },
    /// The rows of one expert of two fused tensors, one after the other.
    Pair { first: String, second: String, expert: usize },
}

/// Which matrix is timed, over texts.
pub enum ChoiceView {
    Whole(Seq<char>),
    Expert { name: Seq<char>, expert: nat },
    Pair { first: Seq<char>, second: Seq<char>, expert: nat },
}

impl View for MatrixChoice {
    type V = ChoiceView;

    open spec fn view(&self) -> ChoiceView {
        match self {
            MatrixChoice::Whole(name) => ChoiceView::Whole(name@),
            MatrixChoice::Expert { name, expert } => ChoiceView::Expert {
                name: name@,
                expert: *expert as nat,
            },
            MatrixChoice::Pair { first, second, expert } => ChoiceView::Pair {
                first: first@,
                second: second@,
                expert: *expert as nat,
            },
        }
    }
}

/// The matrix that a text names: a tensor, a tensor and an expert behind the
/// first colon, or two tensors joined by a plus sign and an expert.
pub open spec fn chosen(text: Seq<char>) -> Option<ChoiceView> {
    match next_index(text, ':', 0) {
        None => Some(ChoiceView::Whole(text)),
        Some(colon) => match parsed_number(text.skip(colon + 1), 10, usize::MAX as nat) {
            None => None,
            Some(expert) => {
                let name = text.take(colon);
                match next_index(name, '+', 0) {
                    None => Some(ChoiceView::Expert { name, expert }),
                    Some(plus) => Some(
                        ChoiceView::Pair {
                            first: name.take(plus),
                            second: name.skip(plus + 1),
                            expert,
                        },
                    ),
                }
            },
        },
    }
}

/// Reads a machine number in decimal notation.
fn parse_index(s: &[char]) -> (n: Option<usize>)
    ensures
        match n {
            Some(n) => parsed_number(s@, 10, usize::MAX as nat) == Some(n as nat),
            None => parsed_number(s@, 10, usize::MAX as nat) is None,
        },
{
    match parse_number(s, 10) {
        Some(n) => if n <= usize::MAX as u64 {
            Some(n as usize)
        } else {
            None
        },
        None => None,
    }
}

/// The part of a text between two places.
fn piece(s: &Vec<char>, from: usize, to: usize) -> (text: String)
    requires
        from <= to <= s@.len(),
    ensures
        text@ == s@.subrange(from as int, to as int),
{
    let characters: Vec<char> = part(s.as_slice(), from, to);
    text_of(characters.as_slice())
}

/// The matrix that a text names; nothing if what stands behind the first colon
/// is no number.
pub fn choose_matrix(text: &str) -> (choice: Option<MatrixChoice>)
    ensures
        match choice {
            Some(choice) => chosen(text@) == Some(choice@),
            None => chosen(text@) is None,
        },
{
    let characters: Vec<char> = chars_of(text);
    let n: usize = characters.len();
    let colon: usize = match find_next(characters.as_slice(), ':', 0) {
        Some(colon) => colon,
        None => {
            return Some(MatrixChoice::Whole(text.to_owned()));
        },
    };
    let number: Vec<char> = part(characters.as_slice(), colon + 1, n);
    proof {
        assert(number@ =~= text@.skip(colon + 1));
    }
    let expert: usize = match parse_index(number.as_slice()) {
        Some(expert) => expert,
        None => {
            return None;
        },
    };
    let name: Vec<char> = part(characters.as_slice(), 0, colon);
    proof {
        assert(name@ =~= text@.take(colon as int));
    }
    match find_next(name.as_slice(), '+', 0) {
        Some(plus) => {
            let first: String = piece(&name, 0, plus);
            let second: String = piece(&name, plus + 1, colon);
            proof {
                assert(first@ =~= name@.take(plus as int));
                assert(second@ =~= name@.skip(plus + 1));
            }
            Some(MatrixChoice::Pair { first, second, expert })
        },
        None => Some(MatrixChoice::Expert { name: text_of(name.as_slice()), expert }),
    }
}

/// The text that names an expert of a tensor.
pub open spec fn expert_text(name: Seq<char>, expert: nat) -> Seq<char> {
    name + ":"@ + decimal(expert)
}

/// The experts that follow the one that a text names, as texts of their own. A
/// text without a colon names no expert and has none.
pub open spec fn batch_of(text: Seq<char>, count: nat) -> Option<Seq<Seq<char>>> {
    match last_index(text, ':') {
        None => Some(Seq::empty()),
        Some(colon) => match parsed_number(text.skip(colon + 1), 10, usize::MAX as nat) {
            None => None,
            Some(first) => Some(
                Seq::new(count, |i: int| expert_text(text.take(colon), first + i as nat)),
            ),
        },
    }
}

/// Whether the experts of a batch can be numbered.
pub open spec fn batch_fits(text: Seq<char>, count: nat) -> bool {
    match last_index(text, ':') {
        None => true,
        Some(colon) => match parsed_number(text.skip(colon + 1), 10, usize::MAX as nat) {
            None => true,
            Some(first) => first + count <= usize::MAX,
        },
    }
}

/// The experts that are timed as one batch; nothing if what stands behind the
/// last colon is no number.
pub fn expert_batch(text: &str, count: usize) -> (names: Option<Vec<String>>)
    requires
        batch_fits(text@, count as nat),
    ensures
        match names {
            Some(names) => batch_of(text@, count as nat) == Some(texts(names@)),
            None => batch_of(text@, count as nat) is None,
        },
{
    let characters: Vec<char> = chars_of(text);
    let n: usize = characters.len();
    let mut names: Vec<String> = Vec::new();
    let colon: usize = match find_last(characters.as_slice(), ':') {
        Some(colon) => colon,
        None => {
            proof {
                assert(texts(names@) =~= Seq::<Seq<char>>::empty());
            }
            return Some(names);
        },
    };
    let number: Vec<char> = part(characters.as_slice(), colon + 1, n);
    proof {
        assert(number@ =~= text@.skip(colon + 1));
    }
    let first: usize = match parse_index(number.as_slice()) {
        Some(first) => first,
        None => {
            return None;
        },
    };
    let name: String = piece(&characters, 0, colon);
    proof {
        assert(name@ =~= text@.take(colon as int));
    }
    let mut i: usize = 0;
    while i < count
        invariant
            i <= count,
            first + count <= usize::MAX,
            names@.len() == i,
            name@ == text@.take(colon as int),
            forall|k: int|
                0 <= k < i ==> (#[trigger] names@[k])@ == expert_text(
                    text@.take(colon as int),
                    (first + k) as nat,
                ),
        decreases count - i,
    {
        let mut one: String = name.clone();
        one.append(":");
        one.append(decimal_text(first + i).as_str());
        names.push(one);
        i += 1;
    }
    proof {
        assert(texts(names@) =~= Seq::new(
            count as nat,
            |i: int| expert_text(text@.take(colon as int), first as nat + i as nat),
        ));
    }
    Some(names)
}

/// The input of a benchmark before it is scaled: reproducible, around zero, and
/// different from row to row.
pub open spec fn pattern(row: int, column: int) -> int {
    (column * 31 + row * 17) % 61 - 30
}

/// One element of the input, to be divided by 32.
pub fn input_numerator(row: usize, column: usize) -> (value: i32)
    requires
        column * 31 + row * 17 <= usize::MAX,
    ensures
        value == pattern(row as int, column as int),
        -30 <= value <= 30,
{
    ((column * 31 + row * 17) % 61) as i32 - 30
}

/// One element of the input of a single layer, to be divided by 16.
pub fn layer_numerator(index: usize, step: usize) -> (value: i32)
    requires
        index + step * 7 <= usize::MAX,
    ensures
        value == (index + step * 7) % 31 - 15,
        -15 <= value <= 15,
{
    ((index + step * 7) % 31) as i32 - 15
}

/// The shortest of the samples, and the one in the middle of their order.
pub fn best_and_median(samples: &[u64]) -> (summary: (u64, u64))
    requires
        samples@.len() > 0,
    ensures
        exists|order: Seq<usize>|
            {
                &&& #[trigger] arranges(order, samples@.len())
                &&& key_ordered(order, samples@)
                &&& summary.0 == samples@[order[0] as int]
                &&& summary.1 == samples@[order[(samples@.len() / 2) as int] as int]
            },
        samples@.contains(summary.0),
        forall|i: int| 0 <= i < samples@.len() ==> summary.0 <= #[trigger] samples@[i],
{
    let order: Vec<usize> = order_by_key(samples);
    let n: usize = samples.len();
    let best: u64 = samples[order[0]];
    let median: u64 = samples[order[n / 2]];
    proof {
        assert(samples@[order@[0] as int] == best);
        assert forall|i: int| 0 <= i < samples@.len() implies best <= #[trigger] samples@[i] by {
            assert(order@.contains(i as usize));
            let at = order@.index_of(i as usize);
            if at > 0 {
                assert(samples@[order@[0] as int] <= samples@[order@[at] as int]);
            }
        }
        assert(arranges(order@, samples@.len()));
    }
    (best, median)
}

} // verus!
