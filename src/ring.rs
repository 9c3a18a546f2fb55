use vstd::prelude::*;

verus! {

/// The slot after `i` in a ring of `n` slots: `(i + 1) mod n`.
pub open spec fn next_index(i: int, n: int) -> int {
    if i + 1 == n {
        0
    } else {
        i + 1
    }
}

/// Position `x`, for `x < 2n`, brought back into the ring.
pub open spec fn wrap(x: int, n: int) -> int {
    if x < n {
        x
    } else {
        x - n
    }
}

/// How many frames are queued between the cursors.
pub open spec fn queued(read: int, write: int, n: int) -> int {
    if write >= read {
        write - read
    } else {
        write + n - read
    }
}

/// The queued frames, oldest first: the slots from `read` up to `write`.
pub open spec fn contents<F>(slots: Seq<F>, read: int, write: int, n: int) -> Seq<F> {
    Seq::new(queued(read, write, n) as nat, |i: int| slots[wrap(read + i, n)])
}

/// Cursors of a ring of `n` slots.
pub open spec fn cursors_ok(read: int, write: int, n: int) -> bool {
    0 <= read < n && 0 <= write < n
}

/// The producer's decision: the new write cursor after writing the slot at
/// `write`, or `None` when the ring is full (the next write cursor would
/// meet the read cursor).
pub fn push_step(write: usize, read: usize, n: usize) -> (r: Option<usize>)
    requires
        cursors_ok(read as int, write as int, n as int),
    ensures
        r == (if next_index(write as int, n as int) == read as int {
            None
        } else {
            Some(next_index(write as int, n as int) as usize)
        }),
        r is None <==> queued(read as int, write as int, n as int) == n - 1,
{
    let next = if write + 1 == n {
        0
    } else {
        write + 1
    };
    if next == read {
        None
    } else {
        Some(next)
    }
}

/// The consumer's decision: the new read cursor after taking the slot at
/// `read`, or `None` when the ring is empty (the cursors are equal).
pub fn pop_step(read: usize, write: usize, n: usize) -> (r: Option<usize>)
    requires
        cursors_ok(read as int, write as int, n as int),
    ensures
        r == (if read == write {
            None
        } else {
            Some(next_index(read as int, n as int) as usize)
        }),
        r is None <==> queued(read as int, write as int, n as int) == 0,
{
    if read == write {
        None
    } else if read + 1 == n {
        Some(0)
    } else {
        Some(read + 1)
    }
}

/// A push that `push_step` allows writes `f` at the write cursor and appends
/// exactly `f` to the queued frames; what was queued stays, in order.
pub proof fn lemma_push_appends<F>(slots: Seq<F>, read: int, write: int, n: int, f: F)
    requires
        slots.len() == n,
        cursors_ok(read, write, n),
        next_index(write, n) != read,
    ensures
        cursors_ok(read, next_index(write, n), n),
        contents(slots.update(write, f), read, next_index(write, n), n) == contents(
            slots,
            read,
            write,
            n,
        ).push(f),
{
    let old_q = contents(slots, read, write, n);
    let new_q = contents(slots.update(write, f), read, next_index(write, n), n);
    assert(queued(read, next_index(write, n), n) == queued(read, write, n) + 1);
    assert forall|i: int| 0 <= i < new_q.len() implies new_q[i] == old_q.push(f)[i] by {
        if i < old_q.len() {
            assert(wrap(read + i, n) != write);
        } else {
            assert(wrap(read + i, n) == write);
        }
    }
    assert(new_q =~= old_q.push(f));
}

/// A pop that `pop_step` allows takes the oldest queued frame, from the slot
/// at the read cursor, and leaves the rest queued in order.
pub proof fn lemma_pop_takes_front<F>(slots: Seq<F>, read: int, write: int, n: int)
    requires
        slots.len() == n,
        cursors_ok(read, write, n),
        read != write,
    ensures
        cursors_ok(next_index(read, n), write, n),
        contents(slots, read, write, n).len() > 0,
        contents(slots, read, write, n)[0] == slots[read],
        contents(slots, next_index(read, n), write, n) == contents(
            slots,
            read,
            write,
            n,
        ).drop_first(),
{
    let old_q = contents(slots, read, write, n);
    let new_q = contents(slots, next_index(read, n), write, n);
    assert(queued(next_index(read, n), write, n) == queued(read, write, n) - 1);
    assert forall|i: int| 0 <= i < new_q.len() implies new_q[i] == old_q.drop_first()[i] by {
        assert(wrap(next_index(read, n) + i, n) == wrap(read + i + 1, n));
    }
    assert(new_q =~= old_q.drop_first());
}

/// A ring of `n` slots holds at most `n - 1` frames, and holds none exactly
/// when the cursors are equal.
pub proof fn lemma_capacity(read: int, write: int, n: int)
    requires
        cursors_ok(read, write, n),
    ensures
        0 <= queued(read, write, n) <= n - 1,
        queued(read, write, n) == 0 <==> read == write,
{
}

} // verus!
