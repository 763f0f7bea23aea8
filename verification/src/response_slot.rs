//! The state of a single-message response channel between an actor and the code that
//! waits for its answer.
use vstd::prelude::*;

verus! {

/// Error indicating that the sender endpoint was closed without sending a message.
#[derive(Clone, Copy, Debug, PartialEq, Eq, Structural)]
pub struct CanceledError;

/// The state of a response channel.
#[derive(Debug)]
pub enum ResponseSlot<T> {
    /// No response has been sent.
    Empty,
    /// A response has been sent but not yet received.
    Ready(T),
    /// A response has been sent and consumed by the receiver.
    Finished,
    /// A response has not been sent and the sender was dropped.
    Canceled,
}

/// The slot after `value` is sent into an empty slot.
pub open spec fn after_insert<T>(value: T) -> ResponseSlot<T> {
    ResponseSlot::Ready(value)
}

/// The slot after the sender of `s` is dropped.
pub open spec fn after_close<T>(s: ResponseSlot<T>) -> ResponseSlot<T> {
    match s {
        ResponseSlot::Empty => ResponseSlot::Canceled,
        _ => s,
    }
}

/// What the receiver gets when it looks into `s`, and the slot it leaves behind.
pub open spec fn take_outcome<T>(s: ResponseSlot<T>) -> (Result<Option<T>, CanceledError>, ResponseSlot<T>) {
    match s {
        ResponseSlot::Ready(value) => (Ok(Some(value)), ResponseSlot::Finished),
        ResponseSlot::Empty => (Ok(None), ResponseSlot::Empty),
        _ => (Err(CanceledError), ResponseSlot::Finished),
    }
}

impl<T> ResponseSlot<T> {
    /// An empty slot.
    pub fn new() -> (r: ResponseSlot<T>)
        ensures
            r is Empty,
    {
        ResponseSlot::Empty
    }

    /// Inserts a response in the slot, changing the state to indicate that a response has
    /// been sent. The slot must be empty: a request gets a single response.
    pub fn insert(&mut self, value: T)
        requires
            *old(self) is Empty,
        ensures
            *final(self) == after_insert(value),
    {
        *self = ResponseSlot::Ready(value);
    }

    /// Closes the slot, marking it as `Canceled` if no response has been sent.
    pub fn close(&mut self)
        ensures
            *final(self) == after_close(*old(self)),
    {
        if let ResponseSlot::Empty = self {
            *self = ResponseSlot::Canceled;
        }
    }

    /// Attempts to retrieve a response from the slot. A response is taken at most once,
    /// so the slot must not be finished.
    pub fn take(&mut self) -> (r: Result<Option<T>, CanceledError>)
        requires
            !(*old(self) is Finished),
        ensures
            (r, *final(self)) == take_outcome(*old(self)),
    {
        let mut previous = ResponseSlot::Finished;
        std::mem::swap(&mut previous, self);
        match previous {
            ResponseSlot::Ready(value) => Ok(Some(value)),
            ResponseSlot::Empty => {
                *self = ResponseSlot::Empty;
                Ok(None)
            },
            _ => Err(CanceledError),
        }
    }
}

/// A response that was sent is received exactly as it was sent, and the slot is then
/// finished.
pub proof fn law_take_returns_sent_response<T>(value: T)
    ensures
        take_outcome(after_insert(value)) == (
            Ok::<Option<T>, CanceledError>(Some(value)),
            ResponseSlot::<T>::Finished,
        ),
{
}

/// Dropping the sender after it sent a response does not lose the response.
pub proof fn law_close_keeps_sent_response<T>(value: T)
    ensures
        after_close(after_insert(value)) == after_insert(value),
{
}

/// When the sender is dropped before sending anything, the receiver is told the request
/// was canceled.
pub proof fn law_close_before_send_cancels<T>()
    ensures
        take_outcome(after_close(ResponseSlot::<T>::Empty)).0 == Err::<Option<T>, CanceledError>(
            CanceledError,
        ),
{
}

/// Looking into a slot where nothing was sent yet leaves it as it was.
pub proof fn law_take_before_send_waits<T>()
    ensures
        take_outcome(ResponseSlot::<T>::Empty) == (
            Ok::<Option<T>, CanceledError>(None),
            ResponseSlot::<T>::Empty,
        ),
{
}

/// A request gets one response: once a response was sent, the slot is no longer empty,
/// so a second sending is refused, and the receiver gets the first response.
pub proof fn law_second_send_is_refused<T>(first: T)
    ensures
        !(after_insert(first) is Empty),
        !(after_close(after_insert(first)) is Empty),
        take_outcome(after_insert(first)).0 == Ok::<Option<T>, CanceledError>(Some(first)),
        take_outcome(after_close(after_insert(first))).0 == Ok::<Option<T>, CanceledError>(Some(first)),
{
}

} // verus!
