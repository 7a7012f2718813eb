//! Characters, numbers and names: the small amount of text handling that file
//! names, tensor names and header fields are made of.

use vstd::prelude::*;

verus! {

/// `String::push`: appends one character at the end of the string.
pub assume_specification[ String::push ](s: &mut String, c: char)
    ensures
        final(s)@ == old(s)@.push(c),
;

/// A character with its ASCII capitals made small.
pub open spec fn ascii_lower(c: char) -> char {
    if 'A' <= c <= 'Z' {
        ((c as u32 + 32) as u8) as char
    } else {
        c
    }
}

/// A character with its ASCII capitals made small.
pub fn lower(c: char) -> (l: char)
    ensures
        l == ascii_lower(c),
{
    let code: u32 = c as u32;
    if 'A' <= c && c <= 'Z' {
        ((code + 32) as u8) as char
    } else {
        c
    }
}

/// The characters of a string slice.
pub fn chars_of(s: &str) -> (chars: Vec<char>)
    ensures
        chars@ == s@,
{
    let mut chars: Vec<char> = Vec::new();
    for c in it: s.chars()
        invariant
            it.seq() == s@,
            chars@ == s@.take(it.index() as int),
    {
        proof {
            assert(s@.take(it.index() as int).push(c) =~= s@.take(it.index() + 1));
        }
        chars.push(c);
    }
    proof {
        assert(s@.take(s@.len() as int) =~= s@);
    }
    chars
}

/// The string made of the given characters.
pub fn text_of(chars: &[char]) -> (text: String)
    ensures
        text@ == chars@,
{
    let mut text = String::new();
    let mut i: usize = 0;
    while i < chars.len()
        invariant
            i <= chars@.len(),
            text@ == chars@.take(i as int),
        decreases chars@.len() - i,
    {
        proof {
            assert(chars@.take(i as int).push(chars@[i as int]) =~= chars@.take(i + 1));
        }
        text.push(chars[i]);
        i += 1;
    }
    proof {
        assert(chars@.take(chars@.len() as int) =~= chars@);
    }
    text
}

/// Whether two strings hold the same characters.
pub fn same_text(a: &str, b: &str) -> (same: bool)
    ensures
        same == (a@ == b@),
{
    a.to_owned() == b.to_owned()
}

/// The lower-case digit that stands for `d`, for `d` below 36.
pub open spec fn digit_char(d: nat) -> char {
    if d < 10 {
        (48 + d) as char
    } else {
        (87 + d) as char
    }
}

/// What the character `c` stands for as a digit of the given radix, upper and
/// lower case alike.
pub open spec fn digit_value(c: char, radix: nat) -> Option<nat> {
    let v = if '0' <= c <= '9' {
        c as int - 48
    } else if 'a' <= c <= 'z' {
        c as int - 87
    } else if 'A' <= c <= 'Z' {
        c as int - 55
    } else {
        36
    };
    if v < radix && v < 36 {
        Some(v as nat)
    } else {
        None
    }
}

/// `n` written out in the given radix, without leading zeros.
pub open spec fn numeral(n: nat, radix: nat) -> Seq<char>
    decreases n,
{
    if n < radix || radix < 2 {
        seq![digit_char(n)]
    } else {
        proof {
            assert(n / radix < n) by (nonlinear_arith)
                requires
                    n >= radix,
                    radix >= 2,
            ;
        }
        numeral(n / radix, radix).push(digit_char(n % radix))
    }
}

/// `n` in decimal notation.
pub open spec fn decimal(n: nat) -> Seq<char> {
    numeral(n, 10)
}

/// `s` filled up with zeros on the left to at least `width` characters.
pub open spec fn zero_padded(s: Seq<char>, width: nat) -> Seq<char> {
    if s.len() < width {
        Seq::new((width - s.len()) as nat, |i: int| '0') + s
    } else {
        s
    }
}

/// The number that a sequence of digits stands for; nothing if a character is
/// no digit of the radix. The empty sequence stands for zero.
pub open spec fn digits_value(s: Seq<char>, radix: nat) -> Option<nat>
    decreases s.len(),
{
    if s.len() == 0 {
        Some(0)
    } else {
        match (digits_value(s.drop_last(), radix), digit_value(s.last(), radix)) {
            (Some(v), Some(d)) => Some(v * radix + d),
            _ => None,
        }
    }
}

/// The unsigned number that `s` spells: an optional plus sign, then one or
/// more digits, of a value of at most `max`.
pub open spec fn parsed_number(s: Seq<char>, radix: nat, max: nat) -> Option<nat> {
    let digits = if s.len() > 0 && s[0] == '+' {
        s.skip(1)
    } else {
        s
    };
    if digits.len() == 0 {
        None
    } else {
        match digits_value(digits, radix) {
            Some(v) => if v <= max {
                Some(v)
            } else {
                None
            },
            None => None,
        }
    }
}

/// A digit reads back as the number it stands for.
proof fn lemma_digit_round_trip(d: nat, radix: nat)
    requires
        d < radix <= 16,
    ensures
        digit_value(digit_char(d), radix) == Some(d),
        digit_char(d) != '+',
        digit_char(d) != '-',
        digit_char(d) != '.',
{
}

/// Writing a number out and reading it back gives the number, and what is
/// written holds digits only.
pub proof fn numeral_round_trips(n: nat, radix: nat)
    requires
        2 <= radix <= 16,
    ensures
        digits_value(numeral(n, radix), radix) == Some(n),
        numeral(n, radix).len() > 0,
        forall|i: int|
            0 <= i < numeral(n, radix).len() ==> digit_value(
                #[trigger] numeral(n, radix)[i],
                radix,
            ) is Some,
    decreases n,
{
    if n < radix {
        lemma_digit_round_trip(n, radix);
        let s = seq![digit_char(n)];
        assert(s.drop_last() =~= Seq::<char>::empty());
        assert(digits_value(s.drop_last(), radix) == Some(0nat));
        assert(0 * radix == 0) by (nonlinear_arith);
    } else {
        assert(n / radix < n) by (nonlinear_arith)
            requires
                n >= radix,
                radix >= 2,
        ;
        assert(n % radix < radix) by (nonlinear_arith)
            requires
                radix >= 2,
        ;
        numeral_round_trips(n / radix, radix);
        lemma_digit_round_trip(n % radix, radix);
        let s = numeral(n, radix);
        assert(s.drop_last() =~= numeral(n / radix, radix));
        assert((n / radix) * radix + n % radix == n) by (nonlinear_arith)
            requires
                radix >= 2,
        ;
    }
}

/// Leading zeros do not change what a sequence of digits stands for.
pub proof fn zeros_keep_the_value(k: nat, s: Seq<char>, radix: nat)
    requires
        2 <= radix,
    ensures
        digits_value(Seq::new(k, |i: int| '0') + s, radix) == digits_value(s, radix),
    decreases k + s.len(),
{
    let zeros = Seq::new(k, |i: int| '0');
    let whole = zeros + s;
    if s.len() > 0 {
        assert(whole.drop_last() =~= zeros + s.drop_last());
        zeros_keep_the_value(k, s.drop_last(), radix);
    } else if k > 0 {
        let fewer = Seq::new((k - 1) as nat, |i: int| '0');
        assert(whole.drop_last() =~= fewer + s);
        zeros_keep_the_value((k - 1) as nat, s, radix);
        assert(0 * radix == 0) by (nonlinear_arith);
    }
}

/// A number that fits reads back from its zero-padded numeral.
pub proof fn padded_numeral_round_trips(n: nat, radix: nat, width: nat, max: nat)
    requires
        2 <= radix <= 16,
        n <= max,
    ensures
        parsed_number(zero_padded(numeral(n, radix), width), radix, max) == Some(n),
        forall|i: int|
            0 <= i < zero_padded(numeral(n, radix), width).len() ==> digit_value(
                #[trigger] zero_padded(numeral(n, radix), width)[i],
                radix,
            ) is Some,
{
    numeral_round_trips(n, radix);
    let s = numeral(n, radix);
    let p = zero_padded(s, width);
    if s.len() < width {
        zeros_keep_the_value((width - s.len()) as nat, s, radix);
    }
    assert forall|i: int| 0 <= i < p.len() implies digit_value(#[trigger] p[i], radix) is Some by {
        if s.len() < width && i >= width - s.len() {
            assert(p[i] == s[i - (width - s.len())]);
        }
    }
    assert(digit_value(p[0], radix) is Some);
    assert(p[0] != '+');
}

/// The digit that stands for `d`.
fn digit_of(d: u64) -> (c: char)
    requires
        d < 16,
    ensures
        c == digit_char(d as nat),
{
    if d < 10 {
        (48u8 + d as u8) as char
    } else {
        (87u8 + d as u8) as char
    }
}

/// Writes `n` in the given radix, at least `width` characters wide.
pub fn number_text(n: u64, radix: u64, width: usize) -> (text: String)
    requires
        2 <= radix <= 16,
    ensures
        text@ == zero_padded(numeral(n as nat, radix as nat), width as nat),
{
    let mut reversed: Vec<char> = Vec::new();
    let mut rest: u64 = n;
    let ghost full = numeral(n as nat, radix as nat);
    proof {
        assert(full =~= numeral(rest as nat, radix as nat) + reversed@.reverse());
    }
    while rest >= radix
        invariant
            2 <= radix <= 16,
            full == numeral(n as nat, radix as nat),
            full == numeral(rest as nat, radix as nat) + reversed@.reverse(),
        decreases rest,
    {
        let d: u64 = rest % radix;
        let ghost before = reversed@;
        let ghost r0 = rest;
        reversed.push(digit_of(d));
        proof {
            assert(rest / radix < rest) by (nonlinear_arith)
                requires
                    rest >= radix,
                    radix >= 2,
            ;
            assert(numeral(r0 as nat, radix as nat) == numeral(
                (r0 / radix) as nat,
                radix as nat,
            ).push(digit_char(d as nat)));
            assert(reversed@.reverse() =~= seq![digit_char(d as nat)] + before.reverse());
            assert(numeral((r0 / radix) as nat, radix as nat).push(digit_char(d as nat))
                + before.reverse() =~= numeral((r0 / radix) as nat, radix as nat)
                + reversed@.reverse());
        }
        rest = rest / radix;
    }
    let ghost before = reversed@;
    reversed.push(digit_of(rest));
    proof {
        assert(reversed@.reverse() =~= seq![digit_char(rest as nat)] + before.reverse());
        assert(full =~= reversed@.reverse());
    }
    let count: usize = reversed.len();
    let mut text = String::new();
    let mut pad: usize = 0;
    let missing: usize = if count < width {
        width - count
    } else {
        0
    };
    while pad < missing
        invariant
            pad <= missing,
            text@ == Seq::new(pad as nat, |i: int| '0'),
        decreases missing - pad,
    {
        text.push('0');
        pad += 1;
        proof {
            assert(text@ =~= Seq::new(pad as nat, |i: int| '0'));
        }
    }
    let ghost zeros = text@;
    let mut i: usize = count;
    while i > 0
        invariant
            i <= count,
            count == reversed@.len(),
            text@ == zeros + reversed@.reverse().take(count - i),
        decreases i,
    {
        i -= 1;
        proof {
            assert(reversed@.reverse().take(count - i) =~= reversed@.reverse().take(
                count - i - 1,
            ).push(reversed@[i as int]));
            assert(zeros + reversed@.reverse().take(count - i) =~= (zeros
                + reversed@.reverse().take(count - i - 1)).push(reversed@[i as int]));
        }
        text.push(reversed[i]);
    }
    proof {
        assert(reversed@.reverse().take(count as int) =~= full);
        assert(text@ =~= zero_padded(full, width as nat));
    }
    text
}

/// Writes `n` in decimal notation.
pub fn decimal_text(n: usize) -> (text: String)
    ensures
        text@ == decimal(n as nat),
{
    number_text(n as u64, 10, 0)
}

/// What one character stands for as a digit.
fn digit_number(c: char, radix: u64) -> (v: Option<u64>)
    requires
        2 <= radix <= 16,
    ensures
        match v {
            Some(v) => digit_value(c, radix as nat) == Some(v as nat),
            None => digit_value(c, radix as nat) is None,
        },
{
    let code: u32 = c as u32;
    let v: u32 = if 48 <= code && code <= 57 {
        code - 48
    } else if 97 <= code && code <= 122 {
        code - 87
    } else if 65 <= code && code <= 90 {
        code - 55
    } else {
        36
    };
    if (v as u64) < radix {
        Some(v as u64)
    } else {
        None
    }
}

/// A prefix that stands for too large a number, or for none, never becomes a
/// number again by appending digits.
proof fn lemma_value_grows(s: Seq<char>, i: int, radix: nat, max: nat)
    requires
        0 <= i <= s.len(),
        2 <= radix,
        match digits_value(s.take(i), radix) {
            Some(v) => v > max,
            None => true,
        },
    ensures
        match digits_value(s, radix) {
            Some(v) => v > max,
            None => true,
        },
    decreases s.len() - i,
{
    if i == s.len() {
        assert(s.take(i) =~= s);
    } else {
        let next = s.take(i + 1);
        assert(next.drop_last() =~= s.take(i));
        match (digits_value(s.take(i), radix), digit_value(next.last(), radix)) {
            (Some(v), Some(d)) => {
                assert(v * radix + d > max) by (nonlinear_arith)
                    requires
                        v > max,
                        radix >= 2,
                        d >= 0,
                ;
            },
            _ => {},
        }
        lemma_value_grows(s, i + 1, radix, max);
    }
}

/// Reads an unsigned number: an optional plus sign and at least one digit.
pub fn parse_number(s: &[char], radix: u64) -> (v: Option<u64>)
    requires
        2 <= radix <= 16,
    ensures
        match v {
            Some(v) => parsed_number(s@, radix as nat, u64::MAX as nat) == Some(v as nat),
            None => parsed_number(s@, radix as nat, u64::MAX as nat) is None,
        },
{
    let start: usize = if s.len() > 0 && s[0] == '+' {
        1
    } else {
        0
    };
    let ghost digits = s@.skip(start as int);
    proof {
        assert(s@.skip(0) =~= s@);
    }
    if start == s.len() {
        return None;
    }
    let mut value: u64 = 0;
    let mut i: usize = start;
    proof {
        assert(digits.take(0) =~= Seq::<char>::empty());
    }
    while i < s.len()
        invariant
            2 <= radix <= 16,
            start <= i <= s@.len(),
            digits == s@.skip(start as int),
            digits_value(digits.take(i - start), radix as nat) == Some(value as nat),
            digits.len() == s@.len() - start,
            digits.len() > 0,
            digits == (if s@.len() > 0 && s@[0] == '+' {
                s@.skip(1)
            } else {
                s@
            }),
        decreases s@.len() - i,
    {
        let ghost prefix = digits.take(i + 1 - start);
        proof {
            assert(prefix.drop_last() =~= digits.take(i - start));
            assert(prefix.last() == s@[i as int]);
        }
        let next: Option<u64> = match digit_number(s[i], radix) {
            Some(d) => match value.checked_mul(radix) {
                Some(scaled) => scaled.checked_add(d),
                None => None,
            },
            None => None,
        };
        match next {
            Some(v) => {
                value = v;
            },
            None => {
                proof {
                    if digit_value(s@[i as int], radix as nat) is Some {
                        let d = digit_value(s@[i as int], radix as nat)->0;
                        assert(value as nat * radix as nat + d > u64::MAX);
                    }
                    lemma_value_grows(digits, i + 1 - start, radix as nat, u64::MAX as nat);
                }
                return None;
            },
        }
        i += 1;
    }
    proof {
        assert(digits.take(digits.len() as int) =~= digits);
    }
    Some(value)
}

/// The first index from `from` on that holds `c`.
pub open spec fn next_index(s: Seq<char>, c: char, from: int) -> Option<int>
    decreases s.len() - from,
{
    if from < 0 || from >= s.len() {
        None
    } else if s[from] == c {
        Some(from)
    } else {
        next_index(s, c, from + 1)
    }
}

/// The last index that holds `c`.
pub open spec fn last_index(s: Seq<char>, c: char) -> Option<int>
    decreases s.len(),
{
    if s.len() == 0 {
        None
    } else if s.last() == c {
        Some(s.len() - 1)
    } else {
        last_index(s.drop_last(), c)
    }
}

/// What [`next_index`] finds holds the character, and nothing before it does.
pub proof fn lemma_next_index(s: Seq<char>, c: char, from: int)
    requires
        0 <= from,
    ensures
        match next_index(s, c, from) {
            Some(i) => from <= i < s.len() && s[i] == c && forall|j: int|
                from <= j < i ==> #[trigger] s[j] != c,
            None => forall|j: int| from <= j < s.len() ==> #[trigger] s[j] != c,
        },
    decreases s.len() - from,
{
    if from < s.len() && s[from] != c {
        lemma_next_index(s, c, from + 1);
    }
}

/// The first index that holds a character is where [`next_index`] finds it.
pub proof fn lemma_next_index_at(s: Seq<char>, c: char, from: int, at: int)
    requires
        0 <= from <= at < s.len(),
        s[at] == c,
        forall|j: int| from <= j < at ==> #[trigger] s[j] != c,
    ensures
        next_index(s, c, from) == Some(at),
{
    lemma_next_index(s, c, from);
}

/// What [`last_index`] finds holds the character, and nothing after it does.
pub proof fn lemma_last_index(s: Seq<char>, c: char)
    ensures
        match last_index(s, c) {
            Some(i) => 0 <= i < s.len() && s[i] == c && forall|j: int|
                i < j < s.len() ==> #[trigger] s[j] != c,
            None => forall|j: int| 0 <= j < s.len() ==> #[trigger] s[j] != c,
        },
    decreases s.len(),
{
    if s.len() > 0 && s.last() != c {
        lemma_last_index(s.drop_last(), c);
        match last_index(s, c) {
            Some(i) => {
                assert forall|j: int| i < j < s.len() implies #[trigger] s[j] != c by {
                    if j < s.len() - 1 {
                        assert(s.drop_last()[j] == s[j]);
                    }
                }
            },
            None => {
                assert forall|j: int| 0 <= j < s.len() implies #[trigger] s[j] != c by {
                    if j < s.len() - 1 {
                        assert(s.drop_last()[j] == s[j]);
                    }
                }
            },
        }
    }
}

/// Finds the first index from `from` on that holds `c`.
pub fn find_next(s: &[char], c: char, from: usize) -> (found: Option<usize>)
    ensures
        match found {
            Some(i) => next_index(s@, c, from as int) == Some(i as int) && from <= i < s@.len(),
            None => next_index(s@, c, from as int) is None,
        },
{
    let mut i: usize = from;
    while i < s.len()
        invariant
            from <= i,
            next_index(s@, c, from as int) == next_index(s@, c, i as int),
        decreases s@.len() - i,
    {
        if s[i] == c {
            return Some(i);
        }
        i += 1;
    }
    None
}

/// Finds the last index that holds `c`.
pub fn find_last(s: &[char], c: char) -> (found: Option<usize>)
    ensures
        match found {
            Some(i) => last_index(s@, c) == Some(i as int) && i < s@.len(),
            None => last_index(s@, c) is None,
        },
{
    let mut i: usize = s.len();
    proof {
        assert(s@.take(s@.len() as int) =~= s@);
    }
    while i > 0
        invariant
            i <= s@.len(),
            last_index(s@, c) == last_index(s@.take(i as int), c),
        decreases i,
    {
        i -= 1;
        proof {
            assert(s@.take(i + 1).drop_last() =~= s@.take(i as int));
        }
        if s[i] == c {
            return Some(i);
        }
    }
    None
}

/// Whether two slices of characters are equal.
pub fn same_chars(a: &[char], b: &[char]) -> (same: bool)
    ensures
        same == (a@ == b@),
{
    if a.len() != b.len() {
        return false;
    }
    let mut i: usize = 0;
    while i < a.len()
        invariant
            a@.len() == b@.len(),
            i <= a@.len(),
            forall|j: int| 0 <= j < i ==> a@[j] == b@[j],
        decreases a@.len() - i,
    {
        if a[i] != b[i] {
            return false;
        }
        i += 1;
    }
    proof {
        assert(a@ =~= b@);
    }
    true
}

/// Code-point order: the order in which file names are compared.
pub open spec fn text_le(a: Seq<char>, b: Seq<char>) -> bool
    decreases a.len(),
{
    if a.len() == 0 {
        true
    } else if b.len() == 0 {
        false
    } else if a[0] != b[0] {
        a[0] < b[0]
    } else {
        text_le(a.skip(1), b.skip(1))
    }
}

/// The order of texts is total.
pub proof fn lemma_text_total(a: Seq<char>, b: Seq<char>)
    ensures
        text_le(a, b) || text_le(b, a),
    decreases a.len(),
{
    if a.len() > 0 && b.len() > 0 && a[0] == b[0] {
        lemma_text_total(a.skip(1), b.skip(1));
    }
}

/// The order of texts is transitive.
pub proof fn lemma_text_transitive(a: Seq<char>, b: Seq<char>, c: Seq<char>)
    requires
        text_le(a, b),
        text_le(b, c),
    ensures
        text_le(a, c),
    decreases a.len(),
{
    if a.len() > 0 && b.len() > 0 && c.len() > 0 && a[0] == b[0] && b[0] == c[0] {
        lemma_text_transitive(a.skip(1), b.skip(1), c.skip(1));
    }
}

/// Compares two code points.
fn code_before(p: char, q: char) -> (before: bool)
    ensures
        before == (p < q),
{
    (p as u32) < (q as u32)
}

/// Compares two texts.
pub fn text_in_order(a: &str, b: &str) -> (le: bool)
    ensures
        le == text_le(a@, b@),
{
    let x = chars_of(a);
    let y = chars_of(b);
    let mut i: usize = 0;
    proof {
        assert(x@.skip(0) =~= x@);
        assert(y@.skip(0) =~= y@);
    }
    while i < x.len()
        invariant
            i <= x@.len(),
            i <= y@.len(),
            x@ == a@,
            y@ == b@,
            text_le(a@, b@) == text_le(x@.skip(i as int), y@.skip(i as int)),
        decreases x@.len() - i,
    {
        proof {
            assert(x@.skip(i as int).skip(1) =~= x@.skip(i + 1));
            if i < y@.len() {
                assert(y@.skip(i as int).skip(1) =~= y@.skip(i + 1));
            }
        }
        if i == y.len() {
            return false;
        }
        if x[i] != y[i] {
            return code_before(x[i], y[i]);
        }
        i += 1;
    }
    true
}

/// One text after another.
pub fn joined(a: &str, b: &str) -> (text: String)
    ensures
        text@ == a@ + b@,
{
    let mut text = a.to_owned();
    text.append(b);
    text
}

/// The order of texts is antisymmetric.
pub proof fn lemma_text_antisymmetric(a: Seq<char>, b: Seq<char>)
    requires
        text_le(a, b),
        text_le(b, a),
    ensures
        a == b,
    decreases a.len(),
{
    if a.len() > 0 {
        lemma_text_antisymmetric(a.skip(1), b.skip(1));
        assert(a =~= seq![a[0]] + a.skip(1));
        assert(b =~= seq![b[0]] + b.skip(1));
    } else {
        assert(a =~= b);
    }
}

/// The views of a list of texts.
pub open spec fn texts(list: Seq<String>) -> Seq<Seq<char>> {
    Seq::new(list.len(), |i: int| list[i]@)
}

/// Whether texts stand in order, each once.
pub open spec fn strictly_ordered(list: Seq<Seq<char>>) -> bool {
    forall|i: int, j: int|
        0 <= i < j < list.len() ==> text_le(#[trigger] list[i], #[trigger] list[j]) && list[i]
            != list[j]
}

/// Inserting a text before the first one that is not smaller keeps the order.
pub proof fn lemma_ordered_insert(list: Seq<Seq<char>>, at: int, text: Seq<char>)
    requires
        strictly_ordered(list),
        0 <= at <= list.len(),
        forall|j: int| 0 <= j < at ==> !text_le(text, #[trigger] list[j]),
        at < list.len() ==> text_le(text, list[at]) && text != list[at],
    ensures
        strictly_ordered(list.insert(at, text)),
{
    let after = list.insert(at, text);
    assert forall|i: int, j: int| 0 <= i < j < after.len() implies text_le(
        #[trigger] after[i],
        #[trigger] after[j],
    ) && after[i] != after[j] by {
        if j < at {
            assert(text_le(list[i], list[j]));
        } else if j == at {
            assert(after[i] == list[i]);
            lemma_text_total(text, list[i]);
        } else if i < at {
            assert(text_le(list[i], list[j - 1]));
        } else if i == at {
            assert(after[j] == list[j - 1]);
            if j - 1 > at {
                assert(text_le(list[at], list[j - 1]));
                lemma_text_transitive(text, list[at], list[j - 1]);
                if list[j - 1] == text {
                    lemma_text_antisymmetric(text, list[at]);
                }
            }
        } else {
            assert(text_le(list[i - 1], list[j - 1]));
        }
    }
}

/// The texts of a list in order, each once.
pub fn sorted_unique(list: &Vec<String>) -> (sorted: Vec<String>)
    ensures
        strictly_ordered(texts(sorted@)),
        forall|t: Seq<char>| #[trigger]
            texts(sorted@).contains(t) <==> texts(list@).contains(t),
{
    let mut sorted: Vec<String> = Vec::new();
    let mut n: usize = 0;
    while n < list.len()
        invariant
            n <= list@.len(),
            strictly_ordered(texts(sorted@)),
            forall|t: Seq<char>| #[trigger]
                texts(sorted@).contains(t) <==> texts(list@).take(n as int).contains(t),
        decreases list@.len() - n,
    {
        let ghost before = texts(sorted@);
        let ghost text = list@[n as int]@;
        let mut at: usize = 0;
        while at < sorted.len() && !text_in_order(list[n].as_str(), sorted[at].as_str())
            invariant
                n < list@.len(),
                text == list@[n as int]@,
                before == texts(sorted@),
                at <= sorted@.len(),
                forall|j: int| 0 <= j < at ==> !text_le(text, #[trigger] before[j]),
            ensures
                at < sorted@.len() ==> text_le(text, before[at as int]),
            decreases sorted@.len() - at,
        {
            proof {
                assert(before[at as int] == sorted@[at as int]@);
            }
            at += 1;
        }
        proof {
            assert(texts(list@).take(n + 1) =~= texts(list@).take(n as int).push(text));
            assert forall|t: Seq<char>| #[trigger]
                texts(list@).take(n + 1).contains(t) <==> texts(list@).take(n as int).contains(t)
                    || t == text by {
                lemma_push_contains(texts(list@).take(n as int), text, t);
            }
        }
        let present: bool = at < sorted.len() && same_text(list[n].as_str(), sorted[at].as_str());
        if !present {
            sorted.insert(at, list[n].clone());
            proof {
                assert(texts(sorted@) =~= before.insert(at as int, text));
                lemma_ordered_insert(before, at as int, text);
                assert forall|t: Seq<char>| #[trigger]
                    texts(sorted@).contains(t) <==> before.contains(t) || t == text by {
                    lemma_insert_contains(before, at as int, text, t);
                }
            }
        } else {
            proof {
                assert(before[at as int] == text);
            }
        }
        n += 1;
    }
    proof {
        assert(texts(list@).take(list@.len() as int) =~= texts(list@));
    }
    sorted
}

/// Appending adds one element to what a list holds.
pub proof fn lemma_push_contains<A>(list: Seq<A>, new: A, t: A)
    ensures
        list.push(new).contains(t) <==> list.contains(t) || t == new,
{
    let after = list.push(new);
    if list.contains(t) {
        let i = choose|i: int| 0 <= i < list.len() && list[i] == t;
        assert(after[i] == t);
    }
    assert(after[list.len() as int] == new);
    if after.contains(t) {
        let i = choose|i: int| 0 <= i < after.len() && after[i] == t;
        if i < list.len() {
            assert(list[i] == t);
        }
    }
}

/// Inserting adds one element to what a list holds.
pub proof fn lemma_insert_contains<A>(list: Seq<A>, at: int, new: A, t: A)
    requires
        0 <= at <= list.len(),
    ensures
        list.insert(at, new).contains(t) <==> list.contains(t) || t == new,
{
    let after = list.insert(at, new);
    if list.contains(t) {
        let i = choose|i: int| 0 <= i < list.len() && list[i] == t;
        if i < at {
            assert(after[i] == t);
        } else {
            assert(after[i + 1] == t);
        }
    }
    assert(after[at] == new);
    if after.contains(t) {
        let i = choose|i: int| 0 <= i < after.len() && after[i] == t;
        if i < at {
            assert(list[i] == t);
        } else if i > at {
            assert(list[i - 1] == t);
        }
    }
}

/// Texts are compared at the first place where they differ: the one that ends
/// there, or has the smaller character there, comes first.
pub proof fn texts_are_compared_where_they_differ(a: Seq<char>, b: Seq<char>, at: int)
    requires
        0 <= at <= a.len(),
        at <= b.len(),
        a.take(at) == b.take(at),
        at == a.len() || at == b.len() || a[at] != b[at],
    ensures
        text_le(a, b) <==> at == a.len() || (at < b.len() && a[at] < b[at]),
    decreases at,
{
    if at > 0 {
        assert(a[0] == a.take(at)[0] && b[0] == b.take(at)[0]);
        assert(a.skip(1).take(at - 1) =~= a.take(at).skip(1));
        assert(b.skip(1).take(at - 1) =~= b.take(at).skip(1));
        texts_are_compared_where_they_differ(a.skip(1), b.skip(1), at - 1);
    }
}

} // verus!
