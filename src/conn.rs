use vstd::prelude::*;

verus! {

/// The index of the buffer that a side of a connection reads from; the
/// other side writes to it.
pub fn inbound_index(host: bool) -> (r: usize)
    ensures
        r == (if host { 0usize } else { 1usize }),
{
    if host {
        0
    } else {
        1
    }
}

/// The index of the buffer that a side of a connection writes to: the one
/// the other side reads from.
pub fn outbound_index(host: bool) -> (r: usize)
    ensures
        r == (if host { 1usize } else { 0usize }),
{
    if host {
        1
    } else {
        0
    }
}

/// What one round of a blocking call decides.
#[derive(Debug, Clone, Copy, PartialEq, Eq)]
pub enum Step<T> {
    /// Return this to the caller.
    Return(T),
    /// Yield, then try again.
    Again,
}

/// One round of a blocking receive, from what the inbound buffer gave up and
/// the closed flag read after it. A frame that was queued is returned even
/// where the connection is closed: closing never drops a queued frame. Only
/// an empty buffer on a closed connection ends the receive with `None`.
pub fn recv_outcome<T>(popped: Option<T>, closed: bool) -> (r: Step<Option<T>>)
    ensures
        r == (match popped {
            Some(f) => Step::Return(Some(f)),
            None => if closed {
                Step::Return(None)
            } else {
                Step::Again
            },
        }),
{
    match popped {
        Some(f) => Step::Return(Some(f)),
        None => if closed {
            Step::Return(None)
        } else {
            Step::Again
        },
    }
}

/// One round of a blocking send, from the closed flag and, where it was
/// clear, whether the outbound buffer took the frame. A closed connection
/// ends the send with `false`: the frame is not delivered.
pub fn send_outcome(closed: bool, pushed: bool) -> (r: Step<bool>)
    ensures
        r == (if closed {
            Step::Return(false)
        } else if pushed {
            Step::Return(true)
        } else {
            Step::Again
        }),
{
    if closed {
        Step::Return(false)
    } else if pushed {
        Step::Return(true)
    } else {
        Step::Again
    }
}

} // verus!
