//! Copying between flat buffers of plain elements.

use vstd::prelude::*;

verus! {

/// A copy of a slice.
pub fn copied<T: Copy>(source: &[T]) -> (copy: Vec<T>)
    ensures
        copy@ == source@,
{
    let mut copy: Vec<T> = Vec::new();
    let mut i: usize = 0;
    while i < source.len()
        invariant
            i <= source@.len(),
            copy@ == source@.take(i as int),
        decreases source@.len() - i,
    {
        copy.push(source[i]);
        i += 1;
        proof {
            assert(source@.take(i as int) =~= source@.take(i - 1).push(source@[i - 1]));
        }
    }
    proof {
        assert(source@.take(source@.len() as int) =~= source@);
    }
    copy
}

/// `count` times the same element.
pub open spec fn repeated<T>(value: T, count: int) -> Seq<T> {
    Seq::new(count as nat, |i: int| value)
}

/// A buffer of `count` equal elements.
pub fn filled<T: Copy>(value: T, count: usize) -> (buffer: Vec<T>)
    ensures
        buffer@ == repeated(value, count as int),
{
    let mut buffer: Vec<T> = Vec::new();
    let mut i: usize = 0;
    while i < count
        invariant
            i <= count,
            buffer@ == repeated(value, i as int),
        decreases count - i,
    {
        buffer.push(value);
        i += 1;
        proof {
            assert(repeated(value, i as int) =~= repeated(value, i - 1).push(value));
        }
    }
    buffer
}

/// `buffer` with `source` written over it from `start` on.
pub open spec fn overwritten<T>(buffer: Seq<T>, start: int, source: Seq<T>) -> Seq<T> {
    buffer.take(start) + source + buffer.skip(start + source.len())
}

/// Writes `source` over the elements of `buffer` from `start` on.
pub fn overwrite<T: Copy>(buffer: &mut Vec<T>, start: usize, source: &[T])
    requires
        start + source@.len() <= old(buffer)@.len(),
    ensures
        final(buffer)@ == overwritten(old(buffer)@, start as int, source@),
{
    let ghost before = buffer@;
    let total: usize = buffer.len();
    let mut i: usize = 0;
    proof {
        assert(overwritten(before, start as int, source@.take(0)) =~= before);
    }
    while i < source.len()
        invariant
            i <= source@.len(),
            total == before.len(),
            start + source@.len() <= total,
            buffer@ == overwritten(before, start as int, source@.take(i as int)),
        decreases source@.len() - i,
    {
        buffer.set(start + i, source[i]);
        i += 1;
        proof {
            assert(buffer@ =~= overwritten(before, start as int, source@.take(i as int)));
        }
    }
    proof {
        assert(source@.take(source@.len() as int) =~= source@);
    }
}

/// Sets the length of a buffer, filling up with `value` where it grows.
pub open spec fn resized<T>(buffer: Seq<T>, len: int, value: T) -> Seq<T> {
    if len <= buffer.len() {
        buffer.take(len)
    } else {
        buffer + repeated(value, len - buffer.len())
    }
}

/// Sets the length of a buffer, filling up with `value` where it grows.
pub fn resize<T: Copy>(buffer: &mut Vec<T>, len: usize, value: T)
    ensures
        final(buffer)@ == resized(old(buffer)@, len as int, value),
{
    let ghost before = buffer@;
    if len <= buffer.len() {
        buffer.truncate(len);
        proof {
            assert(buffer@ =~= before.take(len as int));
        }
    } else {
        while buffer.len() < len
            invariant
                before.len() <= buffer@.len() <= len,
                buffer@ == before + repeated(value, buffer@.len() - before.len()),
            decreases len - buffer@.len(),
        {
            let ghost seen = buffer@;
            buffer.push(value);
            proof {
                assert(buffer@ =~= before + repeated(value, buffer@.len() - before.len()));
            }
        }
    }
}

/// Appends a slice to a buffer.
pub fn append_all<T: Copy>(buffer: &mut Vec<T>, source: &[T])
    ensures
        final(buffer)@ == old(buffer)@ + source@,
{
    let ghost before = buffer@;
    let mut i: usize = 0;
    proof {
        assert(before + source@.take(0) =~= before);
    }
    while i < source.len()
        invariant
            i <= source@.len(),
            buffer@ == before + source@.take(i as int),
        decreases source@.len() - i,
    {
        buffer.push(source[i]);
        i += 1;
        proof {
            assert(buffer@ =~= before + source@.take(i as int));
        }
    }
    proof {
        assert(source@.take(source@.len() as int) =~= source@);
    }
}

} // verus!
