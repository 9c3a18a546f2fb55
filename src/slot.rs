use vstd::prelude::*;

verus! {

/// The value of the id-issuing counter before any reservation.
pub const FIRST_ID: u64 = 1;

/// The value of the admitted-id counter before any admission.
pub const NONE_ADMITTED: u64 = 0;

/// The id that a reservation takes when the id-issuing counter stood at
/// `next`, and the value the counter moves to. `None` once the ids are
/// spent.
pub fn reserve_step(next: u64) -> (r: Option<(u64, u64)>)
    ensures
        r == (if next < u64::MAX {
            Some((next, (next + 1) as u64))
        } else {
            None::<(u64, u64)>
        }),
{
    if next < u64::MAX {
        Some((next, next + 1))
    } else {
        None
    }
}

/// The value the admitted-id counter must hold for `id` to be published:
/// its predecessor.
pub fn submit_expected(id: u64) -> (r: u64)
    requires
        id >= FIRST_ID,
    ensures
        r == id - 1,
{
    id - 1
}

/// Whether a publisher of `id` that saw the admitted-id counter at
/// `current` should spin until the counter reaches `id - 1`, rather than
/// try to publish.
pub fn submit_must_wait(current: u64, id: u64) -> (r: bool)
    requires
        id >= FIRST_ID,
    ensures
        r == (current < id - 1),
{
    current < id - 1
}

/// What a poll of the admission loop decides.
#[derive(Debug, Clone, Copy, PartialEq, Eq, Structural)]
pub enum Poll {
    /// Hand out this id; it becomes the last id handed out.
    Admit(u64),
    /// Stop: cancellation was asked for and nothing new was published.
    Stop,
    /// Nothing new: poll again.
    Wait,
}

/// The decision of one poll, from the last id handed out, the value read
/// from the admitted-id counter, and the cancellation flag.
pub open spec fn poll_of(last: u64, observed: u64, cancel: bool) -> Poll {
    if observed != last && last < u64::MAX {
        Poll::Admit((last + 1) as u64)
    } else if cancel {
        Poll::Stop
    } else {
        Poll::Wait
    }
}

/// One poll of the admission loop. A newly published value hands out the
/// successor of the last id handed out, so that ids come out one by one
/// even where several were published between two polls.
pub fn recv_step(last: u64, observed: u64, cancel: bool) -> (r: Poll)
    ensures
        r == poll_of(last, observed, cancel),
{
    if observed != last && last < u64::MAX {
        Poll::Admit(last + 1)
    } else if cancel {
        Poll::Stop
    } else {
        Poll::Wait
    }
}

/// The ids handed out by a run of polls that starts with `last` as the last
/// id handed out and reads the values `polls` from the counter.
pub open spec fn admitted(last: u64, polls: Seq<u64>) -> Seq<u64>
    decreases polls.len(),
{
    if polls.len() == 0 {
        Seq::empty()
    } else {
        match poll_of(last, polls[0], false) {
            Poll::Admit(id) => seq![id] + admitted(id, polls.drop_first()),
            _ => admitted(last, polls.drop_first()),
        }
    }
}

/// Whatever values the polls read, the ids handed out from a start at
/// `last` are `last + 1, last + 2, ...`: no gap, no repeat, no reordering.
pub proof fn lemma_admitted_consecutive(last: u64, polls: Seq<u64>)
    ensures
        forall|i: int|
            0 <= i < admitted(last, polls).len() ==> #[trigger] admitted(last, polls)[i] == last
                + 1 + i,
    decreases polls.len(),
{
    if polls.len() > 0 {
        let rest = polls.drop_first();
        match poll_of(last, polls[0], false) {
            Poll::Admit(id) => {
                lemma_admitted_consecutive(id, rest);
                assert(admitted(last, polls) == seq![id] + admitted(id, rest));
                assert forall|i: int| 0 <= i < admitted(last, polls).len() implies #[trigger] admitted(
                    last,
                    polls,
                )[i] == last + 1 + i by {
                    if i > 0 {
                        assert(admitted(last, polls)[i] == admitted(id, rest)[i - 1]);
                    }
                }
            },
            _ => {
                lemma_admitted_consecutive(last, rest);
                assert(admitted(last, polls) == admitted(last, rest));
            },
        }
    }
}

/// From a fresh registry, the ids handed out are exactly `1, 2, ..., k`.
pub proof fn lemma_admission_order(polls: Seq<u64>)
    ensures
        forall|i: int|
            0 <= i < admitted(NONE_ADMITTED, polls).len() ==> #[trigger] admitted(
                NONE_ADMITTED,
                polls,
            )[i] == i + 1,
{
    lemma_admitted_consecutive(NONE_ADMITTED, polls);
}

/// The admitted-id counter only grows, and a run of polls reads it in order:
/// `polls` does not decrease and starts at or above `last`.
pub open spec fn polls_in_order(last: u64, polls: Seq<u64>) -> bool {
    &&& forall|i: int, j: int| 0 <= i < j < polls.len() ==> polls[i] <= polls[j]
    &&& polls.len() > 0 ==> last <= polls[0]
}

/// Where the polls read a growing counter, no id beyond the last value read
/// is handed out: every id handed out has been published.
pub proof fn lemma_admitted_published(last: u64, polls: Seq<u64>)
    requires
        polls_in_order(last, polls),
        polls.len() > 0,
    ensures
        forall|i: int|
            0 <= i < admitted(last, polls).len() ==> #[trigger] admitted(last, polls)[i]
                <= polls.last(),
    decreases polls.len(),
{
    let rest = polls.drop_first();
    match poll_of(last, polls[0], false) {
        Poll::Admit(id) => {
            assert(admitted(last, polls) == seq![id] + admitted(id, rest));
            if rest.len() > 0 {
                assert(rest[0] == polls[1]);
                assert(polls_in_order(id, rest));
                lemma_admitted_published(id, rest);
                assert(id <= polls.last());
            } else {
                assert(admitted(id, rest) == Seq::<u64>::empty());
            }
            assert forall|i: int| 0 <= i < admitted(last, polls).len() implies #[trigger] admitted(
                last,
                polls,
            )[i] <= polls.last() by {
                if i > 0 {
                    assert(admitted(last, polls)[i] == admitted(id, rest)[i - 1]);
                }
            }
        },
        _ => {
            assert(admitted(last, polls) == admitted(last, rest));
            if rest.len() > 0 {
                assert(rest[0] == polls[1]);
                assert(polls_in_order(last, rest));
                lemma_admitted_published(last, rest);
            } else {
                assert(admitted(last, rest) == Seq::<u64>::empty());
            }
        },
    }
}

/// Once the counter stands at `k`, as many polls as ids are missing hand
/// every one of them out: the run from `last` reaches `k`.
pub proof fn lemma_admitted_complete(last: u64, k: u64, polls: Seq<u64>)
    requires
        last <= k,
        forall|i: int| 0 <= i < polls.len() ==> polls[i] == k,
        polls.len() >= k - last,
    ensures
        admitted(last, polls).len() == k - last,
    decreases polls.len(),
{
    if polls.len() > 0 {
        let rest = polls.drop_first();
        if last < k {
            assert(admitted(last, polls) == seq![(last + 1) as u64] + admitted((last + 1) as u64, rest));
            lemma_admitted_complete((last + 1) as u64, k, rest);
        } else {
            assert(admitted(last, polls) == admitted(last, rest));
            lemma_admitted_complete(last, k, rest);
        }
    }
}

} // verus!
