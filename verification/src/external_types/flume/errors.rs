//! Errors of the channel operations, as plain data.
use vstd::prelude::*;

verus! {

/// The message of a send on a channel whose receivers are all gone.
#[derive(PartialEq, Eq, Clone, Copy)]
pub struct RSendError<T>(pub T);

impl<T> RSendError<T> {
    /// The message that could not be sent.
    pub fn into_inner(self) -> (r: T)
        ensures
            r == self.0,
    {
        self.0
    }

    /// What `Display` writes for this error.
    pub fn display_text(&self) -> (r: &'static str)
        ensures
            r@ == "sending on a closed channel"@,
    {
        "sending on a closed channel"
    }

    /// What `Debug` writes for this error; the message is not shown.
    pub fn debug_text(&self) -> (r: &'static str)
        ensures
            r@ == "RSendError(..)"@,
    {
        "RSendError(..)"
    }
}

/// A receive on a channel whose senders are all gone and which is empty.
#[derive(PartialEq, Eq, Clone, Copy, Structural)]
pub enum RRecvError {
    Disconnected,
}

impl RRecvError {
    /// What `Display` writes for this error.
    pub fn display_text(&self) -> (r: &'static str)
        ensures
            r@ == "receiving on a closed channel"@,
    {
        match self {
            RRecvError::Disconnected => "receiving on a closed channel",
        }
    }

    /// What `Debug` writes for this error.
    pub fn debug_text(&self) -> (r: &'static str)
        ensures
            r@ == "RRecvError{..}"@,
    {
        "RRecvError{..}"
    }
}

/// Why a send that must not block failed; it holds the message.
#[derive(PartialEq, Eq, Clone, Copy)]
pub enum RTrySendError<T> {
    /// The channel was full.
    Full(T),
    /// The receivers are all gone.
    Disconnected(T),
}

/// The message that a failed send held, whatever the reason.
pub open spec fn try_send_payload<T>(e: RTrySendError<T>) -> T {
    match e {
        RTrySendError::Full(v) => v,
        RTrySendError::Disconnected(v) => v,
    }
}

impl<T> RTrySendError<T> {
    /// The message that could not be sent.
    pub fn into_inner(self) -> (r: T)
        ensures
            r == try_send_payload(self),
    {
        match self {
            RTrySendError::Full(v) => v,
            RTrySendError::Disconnected(v) => v,
        }
    }

    /// Whether the send failed because the channel was full.
    pub fn is_full(&self) -> (r: bool)
        ensures
            r == (*self is Full),
    {
        matches!(self, RTrySendError::Full { .. })
    }

    /// Whether the send failed because the receivers are all gone.
    pub fn is_disconnected(&self) -> (r: bool)
        ensures
            r == (*self is Disconnected),
    {
        matches!(self, RTrySendError::Disconnected { .. })
    }

    /// What `Display` writes for this error.
    pub fn display_text(&self) -> (r: &'static str)
        ensures
            r@ == (match *self {
                RTrySendError::Full(_) => "sending on a full channel"@,
                RTrySendError::Disconnected(_) => "sending on a closed channel"@,
            }),
    {
        match self {
            RTrySendError::Full { .. } => "sending on a full channel",
            RTrySendError::Disconnected { .. } => "sending on a closed channel",
        }
    }

    /// What `Debug` writes for this error; the message is not shown.
    pub fn debug_text(&self) -> (r: &'static str)
        ensures
            r@ == (match *self {
                RTrySendError::Full(_) => "Full{..}"@,
                RTrySendError::Disconnected(_) => "Disconnected{..}"@,
            }),
    {
        match self {
            RTrySendError::Full { .. } => "Full{..}",
            RTrySendError::Disconnected { .. } => "Disconnected{..}",
        }
    }
}

/// Why a receive that must not block failed.
#[derive(Debug, PartialEq, Eq, Clone, Copy, Structural)]
pub enum RTryRecvError {
    /// The channel was empty.
    Empty,
    /// The channel is empty and its senders are all gone.
    Disconnected,
}

impl RTryRecvError {
    /// Whether the receive failed because the channel was empty.
    pub fn is_empty(&self) -> (r: bool)
        ensures
            r == (*self == RTryRecvError::Empty),
    {
        *self == RTryRecvError::Empty
    }

    /// Whether the receive failed because the senders are all gone.
    pub fn is_disconnected(&self) -> (r: bool)
        ensures
            r == (*self == RTryRecvError::Disconnected),
    {
        *self == RTryRecvError::Disconnected
    }

    /// What `Display` writes for this error.
    pub fn display_text(&self) -> (r: &'static str)
        ensures
            r@ == (match *self {
                RTryRecvError::Empty => "reciving on an empty channel"@,
                RTryRecvError::Disconnected => "channel is empty and closed"@,
            }),
    {
        match self {
            RTryRecvError::Empty => "reciving on an empty channel",
            RTryRecvError::Disconnected => "channel is empty and closed",
        }
    }
}


/// A failed non-blocking send holds the message it was given, whichever
/// the reason.
pub proof fn lemma_try_send_error_holds_message<T>(message: T)
    ensures
        try_send_payload(RTrySendError::Full(message)) == message,
        try_send_payload(RTrySendError::Disconnected(message)) == message,
{
}

/// A failed non-blocking send failed for exactly one of the two reasons.
pub proof fn lemma_try_send_error_one_reason<T>(e: RTrySendError<T>)
    ensures
        (e is Full) != (e is Disconnected),
{
}

/// A failed non-blocking receive failed for exactly one of the two reasons.
pub proof fn lemma_try_recv_error_one_reason(e: RTryRecvError)
    ensures
        (e == RTryRecvError::Empty) != (e == RTryRecvError::Disconnected),
{
}

} // verus!
