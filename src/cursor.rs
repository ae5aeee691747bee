use vstd::prelude::*;
use vstd::arithmetic::div_mod::{lemma_mod_sub_multiples_vanish, lemma_small_mod};

verus! {

/// Both cursors point inside a payload of `len` bytes.
pub open spec fn valid_cursors(head: int, tail: int, len: int) -> bool {
    0 <= head < len && 0 <= tail < len
}

/// Reduces a position in `[0, 2 * len)` into the payload.
pub open spec fn wrap(x: int, len: int) -> int {
    if x < len {
        x
    } else {
        x - len
    }
}

/// How many bytes sit between `tail` and `head`, walking forward around the ring:
/// the bytes written and not yet read.
pub open spec fn live_count(head: int, tail: int, len: int) -> int {
    if head >= tail {
        head - tail
    } else {
        len - (tail - head)
    }
}

/// Room for new bytes: one slot always stays unused, so that a full ring
/// (`head + 1 == tail` modulo `len`) differs from an empty one (`head == tail`).
pub open spec fn free_count(head: int, tail: int, len: int) -> int {
    len - 1 - live_count(head, tail, len)
}

pub proof fn lemma_wrap_is_mod(x: int, len: int)
    requires
        0 <= x < 2 * len,
    ensures
        wrap(x, len) == x % len,
{
    if x < len {
        lemma_small_mod(x as nat, len as nat);
    } else {
        lemma_mod_sub_multiples_vanish(x, len);
        lemma_small_mod((x - len) as nat, len as nat);
    }
}

/// Bytes that a writer may still add before the ring is full.
pub fn free_space(head: usize, tail: usize, len: usize) -> (r: usize)
    requires
        valid_cursors(head as int, tail as int, len as int),
    ensures
        r == free_count(head as int, tail as int, len as int),
        r < len,
{
    if head >= tail {
        len - (head - tail) - 1
    } else {
        tail - head - 1
    }
}

/// Bytes that a reader may take out.
pub fn available(head: usize, tail: usize, len: usize) -> (r: usize)
    requires
        valid_cursors(head as int, tail as int, len as int),
    ensures
        r == live_count(head as int, tail as int, len as int),
        r < len,
        r == 0 <==> head == tail,
{
    if head >= tail {
        head - tail
    } else {
        len - (tail - head)
    }
}

/// Moves a cursor `n` bytes forward around a ring of `len` bytes.
pub fn advance(cursor: usize, n: usize, len: usize) -> (r: usize)
    requires
        cursor < len,
        n < len,
    ensures
        r == (cursor + n) % (len as int),
        r == wrap(cursor + n, len as int),
        r < len,
{
    proof {
        lemma_wrap_is_mod(cursor + n, len as int);
    }
    if n >= len - cursor {
        n - (len - cursor)
    } else {
        cursor + n
    }
}

} // verus!
