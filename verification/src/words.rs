//! Lines, blocks and words of a text.

use vstd::prelude::*;

verus! {

/// The characters that count as white space.
pub open spec fn space(c: char) -> bool {
    ||| '\u{9}' <= c <= '\u{d}'
    ||| c == ' '
    ||| c == '\u{85}'
    ||| c == '\u{a0}'
    ||| c == '\u{1680}'
    ||| '\u{2000}' <= c <= '\u{200a}'
    ||| c == '\u{2028}'
    ||| c == '\u{2029}'
    ||| c == '\u{202f}'
    ||| c == '\u{205f}'
    ||| c == '\u{3000}'
}

/// Whether a character counts as white space.
pub fn is_space(c: char) -> (is: bool)
    ensures
        is == space(c),
{
    let code: u32 = c as u32;
    (9 <= code && code <= 13) || code == 32 || code == 0x85 || code == 0xa0 || code == 0x1680 || (
    0x2000 <= code && code <= 0x200a) || code == 0x2028 || code == 0x2029 || code == 0x202f || code
        == 0x205f || code == 0x3000
}

/// A text without the white space at its start.
pub open spec fn start_trimmed(s: Seq<char>) -> Seq<char>
    decreases s.len(),
{
    if s.len() > 0 && space(s[0]) {
        start_trimmed(s.skip(1))
    } else {
        s
    }
}

/// A text without the white space at its end.
pub open spec fn end_trimmed(s: Seq<char>) -> Seq<char>
    decreases s.len(),
{
    if s.len() > 0 && space(s.last()) {
        end_trimmed(s.drop_last())
    } else {
        s
    }
}

/// A text without the white space around it.
pub open spec fn trimmed(s: Seq<char>) -> Seq<char> {
    end_trimmed(start_trimmed(s))
}

/// A part of a text.
pub fn part(s: &[char], from: usize, to: usize) -> (part: Vec<char>)
    requires
        from <= to <= s@.len(),
    ensures
        part@ == s@.subrange(from as int, to as int),
{
    let mut part: Vec<char> = Vec::new();
    let mut i: usize = from;
    while i < to
        invariant
            from <= i <= to <= s@.len(),
            part@ == s@.subrange(from as int, i as int),
        decreases to - i,
    {
        part.push(s[i]);
        i += 1;
        proof {
            assert(part@ =~= s@.subrange(from as int, i as int));
        }
    }
    part
}

/// A text without the white space around it.
pub fn trim(s: &[char]) -> (text: Vec<char>)
    ensures
        text@ == trimmed(s@),
{
    let n: usize = s.len();
    let mut from: usize = 0;
    proof {
        assert(s@.skip(0) =~= s@);
    }
    while from < n && is_space(s[from])
        invariant
            n == s@.len(),
            from <= n,
            start_trimmed(s@) == start_trimmed(s@.skip(from as int)),
        ensures
            from < n ==> !space(s@[from as int]),
        decreases n - from,
    {
        proof {
            assert(s@.skip(from as int).skip(1) =~= s@.skip(from + 1));
        }
        from += 1;
    }
    let mut to: usize = n;
    let ghost rest = s@.skip(from as int);
    proof {
        assert(start_trimmed(rest) == rest);
        assert(rest =~= s@.subrange(from as int, n as int));
    }
    while to > from && is_space(s[to - 1])
        invariant
            n == s@.len(),
            from <= to <= n,
            end_trimmed(rest) == end_trimmed(s@.subrange(from as int, to as int)),
        ensures
            to > from ==> !space(s@[to - 1]),
        decreases to,
    {
        proof {
            assert(s@.subrange(from as int, to as int).drop_last() =~= s@.subrange(
                from as int,
                to - 1,
            ));
        }
        to -= 1;
    }
    part(s, from, to)
}

/// A text without a carriage return at its end.
pub open spec fn without_return(s: Seq<char>) -> Seq<char> {
    if s.len() > 0 && s.last() == '\r' {
        s.drop_last()
    } else {
        s
    }
}

/// The lines of a text. A line ends with a line feed, or with a carriage return
/// and a line feed, neither of which is part of it; the last line may lack its
/// end.
pub open spec fn lines(s: Seq<char>) -> Seq<Seq<char>>
    decreases s.len(),
{
    if s.len() == 0 {
        Seq::empty()
    } else {
        let before = s.drop_last();
        let done = lines(before);
        let c = s.last();
        let fresh = before.len() == 0 || before.last() == '\n';
        if c == '\n' {
            if fresh {
                done.push(Seq::empty())
            } else {
                done.drop_last().push(without_return(done.last()))
            }
        } else if fresh {
            done.push(seq![c])
        } else {
            done.drop_last().push(done.last().push(c))
        }
    }
}

/// The blocks of a text that empty lines, that is pairs of line feeds,
/// separate.
pub open spec fn blocks(s: Seq<char>) -> Seq<Seq<char>>
    decreases s.len(),
{
    if s.len() == 0 {
        seq![Seq::empty()]
    } else {
        let done = blocks(s.drop_last());
        let c = s.last();
        if c == '\n' && done.last().len() > 0 && done.last().last() == '\n' {
            done.drop_last().push(done.last().drop_last()).push(Seq::empty())
        } else {
            done.drop_last().push(done.last().push(c))
        }
    }
}

/// The words of a text: its longest runs of characters that are not white
/// space.
pub open spec fn words(s: Seq<char>) -> Seq<Seq<char>>
    decreases s.len(),
{
    if s.len() == 0 {
        Seq::empty()
    } else {
        let before = s.drop_last();
        let done = words(before);
        let c = s.last();
        if space(c) {
            done
        } else if before.len() == 0 || space(before.last()) {
            done.push(seq![c])
        } else {
            done.drop_last().push(done.last().push(c))
        }
    }
}

/// The views of a list of texts.
pub open spec fn pieces(list: Seq<Vec<char>>) -> Seq<Seq<char>> {
    Seq::new(list.len(), |i: int| list[i]@)
}

/// Behind a line that is not ended, there is a line to continue.
proof fn lemma_open_line(s: Seq<char>)
    requires
        s.len() > 0,
    ensures
        lines(s).len() > 0,
    decreases s.len(),
{
    let before = s.drop_last();
    if before.len() > 0 {
        lemma_open_line(before);
    }
}

/// Behind a character that is not white space, there is a word to continue.
proof fn lemma_open_word(s: Seq<char>)
    requires
        s.len() > 0,
        !space(s.last()),
    ensures
        words(s).len() > 0,
{
}

/// The lines of a text.
pub fn lines_of(s: &[char]) -> (list: Vec<Vec<char>>)
    ensures
        pieces(list@) == lines(s@),
{
    let mut list: Vec<Vec<char>> = Vec::new();
    let mut i: usize = 0;
    proof {
        assert(s@.take(0) =~= Seq::<char>::empty());
        assert(pieces(list@) =~= Seq::<Seq<char>>::empty());
    }
    while i < s.len()
        invariant
            i <= s@.len(),
            pieces(list@) == lines(s@.take(i as int)),
        decreases s@.len() - i,
    {
        let ghost before = s@.take(i as int);
        let ghost done = pieces(list@);
        proof {
            assert(s@.take(i + 1).drop_last() =~= before);
            if i > 0 {
                lemma_open_line(before);
            }
        }
        let fresh: bool = i == 0 || s[i - 1] == '\n';
        let c: char = s[i];
        let count: usize = list.len();
        if fresh {
            let mut line: Vec<char> = Vec::new();
            if c != '\n' {
                line.push(c);
            }
            list.push(line);
            proof {
                assert(c != '\n' ==> line@ =~= seq![c]);
                assert(c == '\n' ==> line@ =~= Seq::<char>::empty());
                assert(pieces(list@) =~= done.push(line@));
            }
        } else {
            let mut line: Vec<char> = Vec::new();
            std::mem::swap(&mut line, &mut list[count - 1]);
            let ghost was = line@;
            if c != '\n' {
                line.push(c);
            } else if line.len() > 0 && line[line.len() - 1] == '\r' {
                let _ = line.pop();
            }
            proof {
                assert(c == '\n' ==> line@ =~= without_return(was));
            }
            list.set(count - 1, line);
            proof {
                assert(done.last() == was);
                assert(pieces(list@) =~= done.drop_last().push(line@));
            }
        }
        i += 1;
    }
    proof {
        assert(s@.take(s@.len() as int) =~= s@);
    }
    list
}

/// The blocks of a text.
pub fn blocks_of(s: &[char]) -> (list: Vec<Vec<char>>)
    ensures
        pieces(list@) == blocks(s@),
{
    let mut list: Vec<Vec<char>> = Vec::new();
    let mut open: Vec<char> = Vec::new();
    let mut i: usize = 0;
    proof {
        assert(s@.take(0) =~= Seq::<char>::empty());
        assert(pieces(list@).push(open@) =~= blocks(s@.take(0)));
    }
    while i < s.len()
        invariant
            i <= s@.len(),
            pieces(list@).push(open@) == blocks(s@.take(i as int)),
        decreases s@.len() - i,
    {
        let ghost done = pieces(list@).push(open@);
        let ghost was = open@;
        proof {
            assert(s@.take(i + 1).drop_last() =~= s@.take(i as int));
            assert(done.last() == was);
            assert(done.drop_last() =~= pieces(list@));
        }
        let c: char = s[i];
        if c == '\n' && open.len() > 0 && open[open.len() - 1] == '\n' {
            let _ = open.pop();
            let mut full: Vec<char> = Vec::new();
            std::mem::swap(&mut full, &mut open);
            list.push(full);
            proof {
                assert(full@ =~= was.drop_last());
                assert(open@ =~= Seq::<char>::empty());
                assert(pieces(list@) =~= done.drop_last().push(was.drop_last()));
            }
        } else {
            open.push(c);
        }
        i += 1;
    }
    let ghost done = pieces(list@);
    list.push(open);
    proof {
        assert(s@.take(s@.len() as int) =~= s@);
        assert(pieces(list@) =~= done.push(open@));
    }
    list
}

/// The words of a text.
pub fn words_of(s: &[char]) -> (list: Vec<Vec<char>>)
    ensures
        pieces(list@) == words(s@),
{
    let mut list: Vec<Vec<char>> = Vec::new();
    let mut i: usize = 0;
    proof {
        assert(s@.take(0) =~= Seq::<char>::empty());
        assert(pieces(list@) =~= Seq::<Seq<char>>::empty());
    }
    while i < s.len()
        invariant
            i <= s@.len(),
            pieces(list@) == words(s@.take(i as int)),
        decreases s@.len() - i,
    {
        let ghost before = s@.take(i as int);
        let ghost done = pieces(list@);
        proof {
            assert(s@.take(i + 1).drop_last() =~= before);
            if i > 0 && !space(before.last()) {
                lemma_open_word(before);
            }
        }
        let c: char = s[i];
        if !is_space(c) {
            let count: usize = list.len();
            if i == 0 || is_space(s[i - 1]) {
                let mut word: Vec<char> = Vec::new();
                word.push(c);
                list.push(word);
                proof {
                    assert(word@ =~= seq![c]);
                    assert(pieces(list@) =~= done.push(word@));
                }
            } else {
                let mut word: Vec<char> = Vec::new();
                std::mem::swap(&mut word, &mut list[count - 1]);
                let ghost was = word@;
                word.push(c);
                list.set(count - 1, word);
                proof {
                    assert(done.last() == was);
                    assert(pieces(list@) =~= done.drop_last().push(word@));
                }
            }
        }
        i += 1;
    }
    proof {
        assert(s@.take(s@.len() as int) =~= s@);
    }
    list
}

} // verus!
