//! Palindromes.

use crate::text::{ascii_lower, chars_of, same_chars};
use vstd::prelude::*;

verus! {

/// Whether a character is a letter or a digit, as `char::is_alphanumeric` says.
pub uninterp spec fn alphanumeric(c: char) -> bool;

/// The lower-case characters of a character, as `char::to_lowercase` gives them.
pub uninterp spec fn lowercased(c: char) -> Seq<char>;

/// Whether a character belongs to ASCII.
pub open spec fn is_ascii(c: char) -> bool {
    c as u32 <= 127
}

/// Whether a character is an ASCII letter or digit.
pub open spec fn ascii_alphanumeric(c: char) -> bool {
    'a' <= c <= 'z' || 'A' <= c <= 'Z' || '0' <= c <= '9'
}

/// `char::is_alphanumeric`: whether the character is alphabetic or numeric in
/// the sense of Unicode. Of ASCII these are the letters and the digits; which
/// other characters they are is left unsaid.
pub assume_specification[ char::is_alphanumeric ](c: char) -> (is: bool)
    ensures
        is == alphanumeric(c),
        is_ascii(c) ==> is == ascii_alphanumeric(c),
;

/// `char::to_lowercase`: the lower-case mapping of the character in the sense of
/// Unicode, one character or several. Of ASCII, capitals become small letters
/// and the others stay; the other mappings are left unsaid.
#[verifier::external_body]
fn to_lowercase(c: char) -> (small: Vec<char>)
    ensures
        small@ == lowercased(c),
        is_ascii(c) ==> small@ == seq![ascii_lower(c)],
{
    c.to_lowercase().collect()
}

/// Whether a character counts: letters and digits do.
pub open spec fn counts(c: char) -> bool {
    if is_ascii(c) {
        ascii_alphanumeric(c)
    } else {
        alphanumeric(c)
    }
}

/// What a character is compared by: its lower-case characters.
pub open spec fn folded_char(c: char) -> Seq<char> {
    if is_ascii(c) {
        seq![ascii_lower(c)]
    } else {
        lowercased(c)
    }
}

/// The characters of a text that count.
pub open spec fn kept(s: Seq<char>) -> Seq<char> {
    s.filter(|c: char| counts(c))
}

/// The letters and digits of a text, each by its lower-case characters.
pub open spec fn folded(s: Seq<char>) -> Seq<Seq<char>> {
    kept(s).map_values(|c: char| folded_char(c))
}

/// Whether a text reads the same in both directions, going by its letters and
/// digits and not by their case.
pub open spec fn reads_the_same(s: Seq<char>) -> bool {
    folded(s) == folded(s).reverse()
}

/// The contents of a list of lists.
pub open spec fn contents(rows: Seq<Vec<char>>) -> Seq<Seq<char>> {
    rows.map_values(|row: Vec<char>| row@)
}

/// One more character at the end of a text.
proof fn lemma_folded_push(s: Seq<char>, c: char)
    ensures
        folded(s.push(c)) == if counts(c) {
            folded(s).push(folded_char(c))
        } else {
            folded(s)
        },
{
    s.lemma_filter_push(c, |c: char| counts(c));
    assert(folded(s.push(c)) =~= if counts(c) {
        folded(s).push(folded_char(c))
    } else {
        folded(s)
    });
}

/// Whether a sequence is the same in both directions.
pub fn reads_both_ways(rows: &Vec<Vec<char>>) -> (both: bool)
    ensures
        both == (contents(rows@) == contents(rows@).reverse()),
{
    let n: usize = rows.len();
    let ghost all = contents(rows@);
    let mut i: usize = 0;
    while i < n / 2
        invariant
            n == rows@.len(),
            all == contents(rows@),
            i <= n / 2,
            forall|k: int| 0 <= k < i ==> #[trigger] all[k] == all[n - 1 - k],
        decreases n / 2 - i,
    {
        if !same_chars(rows[i].as_slice(), rows[n - 1 - i].as_slice()) {
            proof {
                assert(all[i as int] != all.reverse()[i as int]);
            }
            return false;
        }
        i += 1;
    }
    proof {
        assert forall|k: int| 0 <= k < n implies all[k] == #[trigger] all.reverse()[k] by {
            if k >= n / 2 {
                let m = n - 1 - k;
                if m < n / 2 {
                    assert(all[m] == all[n - 1 - m]);
                }
            }
        }
        assert(all =~= all.reverse());
    }
    true
}

/// Whether a text is a palindrome.
///
/// Case, spaces and other characters that are neither letters nor digits do not
/// count. A text without letters and digits is a palindrome.
pub fn is_palindrome(s: &str) -> (palindrome: bool)
    ensures
        palindrome == reads_the_same(s@),
{
    let chars = chars_of(s);
    let mut rows: Vec<Vec<char>> = Vec::new();
    let mut i: usize = 0;
    proof {
        reveal(Seq::filter);
        assert(contents(rows@) =~= folded(s@.take(0)));
    }
    while i < chars.len()
        invariant
            chars@ == s@,
            i <= s@.len(),
            contents(rows@) == folded(s@.take(i as int)),
        decreases s@.len() - i,
    {
        let c: char = chars[i];
        let ghost before = contents(rows@);
        proof {
            assert(s@.take(i + 1) =~= s@.take(i as int).push(c));
            lemma_folded_push(s@.take(i as int), c);
        }
        if c.is_alphanumeric() {
            rows.push(to_lowercase(c));
            proof {
                assert(contents(rows@) =~= before.push(folded_char(c)));
            }
        }
        i += 1;
    }
    proof {
        assert(s@.take(s@.len() as int) =~= s@);
    }
    reads_both_ways(&rows)
}

/// The letters and digits of a reversed text are those of the text, reversed.
proof fn lemma_folded_reverse(s: Seq<char>)
    ensures
        folded(s.reverse()) == folded(s).reverse(),
    decreases s.len(),
{
    if s.len() == 0 {
        reveal(Seq::filter);
        assert(folded(s.reverse()) =~= folded(s).reverse());
    } else {
        let rest = s.drop_last();
        let c = s.last();
        lemma_folded_reverse(rest);
        assert(s =~= rest.push(c));
        lemma_folded_push(rest, c);
        assert(s.reverse() =~= seq![c] + rest.reverse());
        Seq::filter_distributes_over_add(seq![c], rest.reverse(), |c: char| counts(c));
        assert(seq![c] =~= Seq::<char>::empty().push(c));
        lemma_folded_push(Seq::<char>::empty(), c);
        reveal(Seq::filter);
        assert(folded(Seq::<char>::empty()) =~= Seq::<Seq<char>>::empty());
        assert(folded(s.reverse()) =~= folded(seq![c]) + folded(rest.reverse()));
        assert(folded(s.reverse()) =~= folded(s).reverse());
    }
}

/// A text is a palindrome exactly if its reversal is one.
pub proof fn reversal_does_not_count(s: Seq<char>)
    ensures
        reads_the_same(s.reverse()) == reads_the_same(s),
{
    lemma_folded_reverse(s);
    assert(folded(s).reverse().reverse() =~= folded(s));
}

/// Where every character counts, all are kept.
proof fn lemma_all_kept(s: Seq<char>)
    requires
        forall|i: int| 0 <= i < s.len() ==> counts(#[trigger] s[i]),
    ensures
        kept(s) == s,
    decreases s.len(),
{
    reveal(Seq::filter);
    if s.len() > 0 {
        let rest = s.drop_last();
        assert forall|i: int| 0 <= i < rest.len() implies counts(#[trigger] rest[i]) by {
            assert(rest[i] == s[i]);
        }
        lemma_all_kept(rest);
        assert(counts(s[s.len() - 1]));
        assert(rest.push(s.last()) =~= s);
    }
}

/// A text is a palindrome exactly if it is one without the characters that are
/// neither letters nor digits.
pub proof fn other_characters_do_not_count(s: Seq<char>)
    ensures
        reads_the_same(kept(s)) == reads_the_same(s),
{
    let pred = |c: char| counts(c);
    assert forall|i: int| 0 <= i < kept(s).len() implies counts(#[trigger] kept(s)[i]) by {
        s.lemma_filter_pred(pred, i);
    }
    lemma_all_kept(kept(s));
}

/// A character with its small ASCII letters made capital.
pub open spec fn ascii_upper(c: char) -> char {
    if 'a' <= c <= 'z' {
        ((c as u32 - 32) as u8) as char
    } else {
        c
    }
}

/// A text with its small ASCII letters made capital.
pub open spec fn capitals(s: Seq<char>) -> Seq<char> {
    s.map_values(|c: char| ascii_upper(c))
}

/// A text in ASCII capitals has the letters and digits of the text.
proof fn lemma_folded_capitals(s: Seq<char>)
    ensures
        folded(capitals(s)) == folded(s),
    decreases s.len(),
{
    if s.len() == 0 {
        assert(capitals(s) =~= s);
    } else {
        let rest = s.drop_last();
        let c = s.last();
        lemma_folded_capitals(rest);
        assert(s =~= rest.push(c));
        assert(capitals(s) =~= capitals(rest).push(ascii_upper(c)));
        lemma_folded_push(rest, c);
        lemma_folded_push(capitals(rest), ascii_upper(c));
    }
}

/// A text is a palindrome exactly if it is one in ASCII capitals.
pub proof fn ascii_case_does_not_count(s: Seq<char>)
    ensures
        reads_the_same(capitals(s)) == reads_the_same(s),
{
    lemma_folded_capitals(s);
}

} // verus!
