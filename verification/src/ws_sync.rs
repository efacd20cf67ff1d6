use vstd::prelude::*;

use crate::models::Change;

verus! {

/// The most WebSocket messages one receive drains; the rest wait for the next cycle.
pub const MAX_WS_MESSAGES: usize = 1000;

/// The most attempts at sending one batch of changes.
pub const SEND_ATTEMPTS: u32 = 4;

/// What to do with a batch of changes to send.
#[derive(Debug, Clone, Copy, PartialEq, Eq, Structural)]
pub enum SendStart {
    /// There is nothing to send.
    Nothing,
    /// No server is configured: the changes stay local.
    StayLocal,
    /// Send them.
    Send,
}

/// Whether a batch is sent: not when it is empty, nor without a server.
pub fn send_start(batch_len: usize, server_url_empty: bool) -> (r: SendStart)
    ensures
        r == (if batch_len == 0 {
            SendStart::Nothing
        } else if server_url_empty {
            SendStart::StayLocal
        } else {
            SendStart::Send
        }),
{
    if batch_len == 0 {
        SendStart::Nothing
    } else if server_url_empty {
        SendStart::StayLocal
    } else {
        SendStart::Send
    }
}

/// After attempt `attempt` (from zero) of a send failed: the seconds to wait before the
/// next one, doubling from one, or `None` to give up after the last attempt.
pub fn retry_delay_secs(attempt: u32) -> (r: Option<u64>)
    ensures
        r == (if attempt + 1 < SEND_ATTEMPTS {
            Some(vstd::arithmetic::power2::pow2(attempt as nat) as u64)
        } else {
            None
        }),
{
    proof {
        vstd::arithmetic::power2::lemma2_to64();
    }
    if attempt == 0 {
        Some(1)
    } else if attempt == 1 {
        Some(2)
    } else if attempt == 2 {
        Some(4)
    } else {
        None
    }
}

/// What reading the next WebSocket frame gave.
#[derive(Debug, Clone)]
pub enum FrameEvent {
    /// A text frame of type `changes` whose list of changes reads.
    Changes(Vec<Change>),
    /// Another text frame: of another type, malformed, or with a list that does not read.
    OtherText,
    /// A frame that is not text (binary, ping, pong).
    NotText,
    /// The connection closed, failed or ended.
    Closed,
    /// Nothing came within the wait.
    Quiet,
}

/// The state of a receive: the text frames read, the changes gathered, whether the
/// connection closed, and whether the receive is over.
#[derive(Debug, Clone)]
pub struct Drain {
    pub count: usize,
    pub changes: Vec<Change>,
    pub closed: bool,
    pub done: bool,
}

/// A receive before any frame.
pub fn drain_start() -> (r: Drain)
    ensures
        r.count == 0 && r.changes@.len() == 0 && !r.closed && !r.done,
{
    Drain { count: 0, changes: Vec::new(), closed: false, done: false }
}

/// Whether the receive reads another frame: while it is not over and the message limit
/// is not reached.
pub fn drain_reads_more(d: &Drain) -> (r: bool)
    ensures
        r == (!d.done && d.count < MAX_WS_MESSAGES),
{
    !d.done && d.count < MAX_WS_MESSAGES
}

/// What a frame does to a receive that reads it: text frames count, a batch of changes
/// is gathered, a closed connection or a quiet wait ends the receive.
pub fn drain_step(d: Drain, event: FrameEvent) -> (r: Drain)
    requires
        !d.done,
        d.count < MAX_WS_MESSAGES,
    ensures
        match event {
            FrameEvent::Changes(b) => r.count == d.count + 1 && r.changes@ == d.changes@ + b@ && r.closed
                == d.closed && !r.done,
            FrameEvent::OtherText => r.count == d.count + 1 && r.changes@ == d.changes@ && r.closed
                == d.closed && !r.done,
            FrameEvent::NotText => r.count == d.count && r.changes@ == d.changes@ && r.closed == d.closed
                && !r.done,
            FrameEvent::Closed => r.count == d.count && r.changes@ == d.changes@ && r.closed && r.done,
            FrameEvent::Quiet => r.count == d.count && r.changes@ == d.changes@ && r.closed == d.closed
                && r.done,
        },
        r.count <= MAX_WS_MESSAGES,
{
    let Drain { count, changes, closed, done } = d;
    let mut changes = changes;
    match event {
        FrameEvent::Changes(b) => {
            let mut b = b;
            changes.append(&mut b);
            Drain { count: count + 1, changes, closed, done: false }
        },
        FrameEvent::OtherText => Drain { count: count + 1, changes, closed, done: false },
        FrameEvent::NotText => Drain { count, changes, closed, done: false },
        FrameEvent::Closed => Drain { count, changes, closed: true, done: true },
        FrameEvent::Quiet => Drain { count, changes, closed, done: true },
    }
}

} // verus!
