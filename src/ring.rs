use vstd::prelude::*;
use crate::cursor::{advance, available, free_count, free_space, live_count, valid_cursors, wrap};

verus! {

/// How far position `j` lies after `start`, walking forward around a ring of `len` bytes.
pub open spec fn offset_from(j: int, start: int, len: int) -> int {
    if j >= start {
        j - start
    } else {
        j + len - start
    }
}

/// The payload once `data` has been copied into it starting at `at`, continuing
/// at offset 0 past the end.
pub open spec fn written(payload: Seq<u8>, at: int, data: Seq<u8>) -> Seq<u8> {
    Seq::new(
        payload.len(),
        |j: int|
            if offset_from(j, at, payload.len() as int) < data.len() {
                data[offset_from(j, at, payload.len() as int)]
            } else {
                payload[j]
            },
    )
}

/// The bytes written and not yet read, oldest first.
pub open spec fn live_bytes(payload: Seq<u8>, head: int, tail: int) -> Seq<u8> {
    Seq::new(
        live_count(head, tail, payload.len() as int) as nat,
        |i: int| payload[wrap(tail + i, payload.len() as int)],
    )
}

/// What a writer does with the cursors it observed.
#[derive(Debug, Clone, Copy, PartialEq, Eq, Structural)]
pub enum WriteStep {
    /// The whole input was copied in; `head` is the cursor to publish.
    Written { head: usize },
    /// Not enough room for the whole input: nothing was copied, wait for the reader.
    Full,
}

/// What a reader does with the cursors it observed.
#[derive(Debug, Clone, Copy, PartialEq, Eq, Structural)]
pub enum ReadStep {
    /// `count` bytes were copied out; `tail` is the cursor to publish.
    Read { count: usize, tail: usize },
    /// Nothing to read: wait for the writer.
    Empty,
}

/// Copying `data` in at `head` keeps the live bytes and puts `data` after them.
pub proof fn lemma_write_appends(payload: Seq<u8>, head: int, tail: int, data: Seq<u8>)
    requires
        valid_cursors(head, tail, payload.len() as int),
        data.len() <= free_count(head, tail, payload.len() as int),
    ensures
        live_bytes(written(payload, head, data), wrap(head + data.len(), payload.len() as int), tail)
            == live_bytes(payload, head, tail) + data,
{
    let len = payload.len() as int;
    let after = written(payload, head, data);
    let new_head = wrap(head + data.len(), len);
    let count = live_count(head, tail, len);
    assert(live_count(new_head, tail, len) == count + data.len());
    let lhs = live_bytes(after, new_head, tail);
    let rhs = live_bytes(payload, head, tail) + data;
    assert forall|i: int| 0 <= i < lhs.len() implies lhs[i] == rhs[i] by {
        let j = wrap(tail + i, len);
        if i < count {
            assert(offset_from(j, head, len) == len - count + i);
        } else {
            assert(offset_from(j, head, len) == i - count);
        }
    }
    assert(lhs =~= rhs);
}

/// Taking `count` live bytes out at `tail` leaves the rest of them, in order.
pub proof fn lemma_read_consumes(payload: Seq<u8>, head: int, tail: int, count: int)
    requires
        valid_cursors(head, tail, payload.len() as int),
        0 <= count <= live_count(head, tail, payload.len() as int),
    ensures
        live_bytes(payload, head, wrap(tail + count, payload.len() as int))
            == live_bytes(payload, head, tail).skip(count),
{
    let len = payload.len() as int;
    let new_tail = wrap(tail + count, len);
    assert(live_count(head, new_tail, len) == live_count(head, tail, len) - count);
    let lhs = live_bytes(payload, head, new_tail);
    let rhs = live_bytes(payload, head, tail).skip(count);
    assert forall|i: int| 0 <= i < lhs.len() implies lhs[i] == rhs[i] by {
        assert(wrap(new_tail + i, len) == wrap(tail + count + i, len));
    }
    assert(lhs =~= rhs);
}

/// One attempt of a writer that observed `head` and `tail`. Writes are all or
/// nothing: the whole of `data` is copied in when it fits, else nothing is.
pub fn write_step(payload: &mut [u8], head: usize, tail: usize, data: &[u8]) -> (r: WriteStep)
    requires
        valid_cursors(head as int, tail as int, old(payload)@.len() as int),
    ensures
        final(payload)@.len() == old(payload)@.len(),
        r == WriteStep::Full <==> data@.len() > free_count(
            head as int,
            tail as int,
            old(payload)@.len() as int,
        ),
        r == WriteStep::Full ==> final(payload)@ == old(payload)@,
        r matches WriteStep::Written { head: h } ==> {
            &&& h == (head + data@.len()) % (old(payload)@.len() as int)
            &&& final(payload)@ == written(old(payload)@, head as int, data@)
            &&& live_bytes(final(payload)@, h as int, tail as int) == live_bytes(
                old(payload)@,
                head as int,
                tail as int,
            ) + data@
        },
{
    let len = payload.len();
    let free = free_space(head, tail, len);
    if data.len() > free {
        return WriteStep::Full;
    }
    let n = data.len();
    let first = if n > len - head {
        len - head
    } else {
        n
    };
    let mut i: usize = 0;
    while i < first
        invariant
            payload@.len() == len,
            len == old(payload)@.len(),
            n == data@.len(),
            first <= n,
            head + first <= len,
            i <= first,
            forall|j: int|
                0 <= j < len ==> payload@[j] == if head <= j < head + i {
                    data@[j - head]
                } else {
                    old(payload)@[j]
                },
        decreases first - i,
    {
        payload[head + i] = data[i];
        i += 1;
    }
    let mut k: usize = 0;
    while k < n - first
        invariant
            payload@.len() == len,
            len == old(payload)@.len(),
            n == data@.len(),
            n <= free,
            free == free_count(head as int, tail as int, len as int),
            valid_cursors(head as int, tail as int, len as int),
            first <= n,
            head + first <= len,
            first < n ==> head + first == len,
            k <= n - first,
            forall|j: int|
                0 <= j < len ==> payload@[j] == if head <= j < head + first {
                    data@[j - head]
                } else if j < k {
                    data@[first + j]
                } else {
                    old(payload)@[j]
                },
        decreases n - first - k,
    {
        payload[k] = data[first + k];
        k += 1;
    }
    let new_head = advance(head, n, len);
    proof {
        assert(payload@ =~= written(old(payload)@, head as int, data@));
        lemma_write_appends(old(payload)@, head as int, tail as int, data@);
    }
    WriteStep::Written { head: new_head }
}

/// One attempt of a reader that observed `head` and `tail`. Reads may be short:
/// as many live bytes as `out` holds are copied out, oldest first.
pub fn read_step(payload: &[u8], head: usize, tail: usize, out: &mut [u8]) -> (r: ReadStep)
    requires
        valid_cursors(head as int, tail as int, payload@.len() as int),
    ensures
        final(out)@.len() == old(out)@.len(),
        r == ReadStep::Empty <==> head == tail,
        r == ReadStep::Empty ==> final(out)@ == old(out)@,
        r matches ReadStep::Read { count, tail: t } ==> {
            let live = live_bytes(payload@, head as int, tail as int);
            &&& count as int == if old(out)@.len() < live.len() {
                old(out)@.len() as int
            } else {
                live.len() as int
            }
            &&& old(out)@.len() > 0 ==> count > 0
            &&& t == (tail + count) % (payload@.len() as int)
            &&& final(out)@ == live.take(count as int) + old(out)@.skip(count as int)
            &&& live_bytes(payload@, head as int, t as int) == live.skip(count as int)
        },
{
    if head == tail {
        return ReadStep::Empty;
    }
    let len = payload.len();
    let avail = available(head, tail, len);
    let count = if out.len() < avail {
        out.len()
    } else {
        avail
    };
    let first = if count > len - tail {
        len - tail
    } else {
        count
    };
    let ghost live = live_bytes(payload@, head as int, tail as int);
    let mut i: usize = 0;
    while i < first
        invariant
            out@.len() == old(out)@.len(),
            len == payload@.len(),
            live == live_bytes(payload@, head as int, tail as int),
            live.len() == avail,
            count <= avail,
            count <= out@.len(),
            first <= count,
            tail + first <= len,
            i <= first,
            forall|j: int|
                0 <= j < out@.len() ==> out@[j] == if j < i {
                    live[j]
                } else {
                    old(out)@[j]
                },
        decreases first - i,
    {
        proof {
            assert(wrap(tail + i, len as int) == tail + i);
        }
        out[i] = payload[tail + i];
        i += 1;
    }
    let mut k: usize = 0;
    while k < count - first
        invariant
            out@.len() == old(out)@.len(),
            len == payload@.len(),
            live == live_bytes(payload@, head as int, tail as int),
            live.len() == avail,
            valid_cursors(head as int, tail as int, len as int),
            avail < len,
            count <= avail,
            count <= out@.len(),
            first <= count,
            tail + first <= len,
            first < count ==> tail + first == len,
            k <= count - first,
            forall|j: int|
                0 <= j < out@.len() ==> out@[j] == if j < first + k {
                    live[j]
                } else {
                    old(out)@[j]
                },
        decreases count - first - k,
    {
        proof {
            assert(wrap(tail + first + k, len as int) == k);
        }
        out[first + k] = payload[k];
        k += 1;
    }
    let new_tail = advance(tail, count, len);
    proof {
        assert(out@ =~= live.take(count as int) + old(out)@.skip(count as int));
        lemma_read_consumes(payload@, head as int, tail as int, count as int);
    }
    ReadStep::Read { count, tail: new_tail }
}

} // verus!
