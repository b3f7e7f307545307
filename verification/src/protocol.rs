//! Data carried over the multiplexed WebSocket: users, presence, session
//! candidates, and the backpressure counters.

use vstd::prelude::*;

verus! {

/// User info passed from the auth layer into WebSocket connections.
#[derive(Debug, Clone, PartialEq, Eq)]
pub struct WsUser {
    pub user_id: String,
    pub display_name: String,
}

/// User presence information broadcast to clients.
#[derive(Debug, Clone, PartialEq, Eq)]
pub struct PresenceUser {
    pub user_id: String,
    pub display_name: String,
}

/// A candidate session offered when the session of an instance is
/// ambiguous.
#[derive(Debug, Clone, PartialEq, Eq)]
pub struct SessionCandidate {
    pub session_id: String,
    pub started_at: Option<String>,
    pub message_count: usize,
    pub preview: Option<String>,
}

/// Default maximum size of terminal history replayed on focus (64 KiB).
pub const DEFAULT_MAX_HISTORY_BYTES: usize = 65536;

/// Counters of broadcasts, sends and dropped messages. Each counter wraps
/// around on overflow.
#[derive(Debug)]
pub struct BackpressureStats {
    /// State broadcasts sent.
    pub state_broadcasts_sent: u64,
    /// State broadcasts that had no receivers.
    pub state_broadcasts_no_receivers: u64,
    /// Output messages sent.
    pub output_messages_sent: u64,
    /// Output messages that lagged (the receiver was slow).
    pub output_messages_lagged: u64,
    /// Messages dropped because of lag, in total.
    pub total_lagged_count: u64,
}

/// A copy of the counters, for serialization and logging.
#[derive(Debug, Clone, Copy, PartialEq, Eq)]
pub struct BackpressureSnapshot {
    pub state_broadcasts_sent: u64,
    pub state_broadcasts_no_receivers: u64,
    pub output_messages_sent: u64,
    pub output_messages_lagged: u64,
    pub total_lagged_count: u64,
}

impl BackpressureStats {
    /// All counters at zero.
    pub fn new() -> (res: Self)
        ensures
            res.state_broadcasts_sent == 0,
            res.state_broadcasts_no_receivers == 0,
            res.output_messages_sent == 0,
            res.output_messages_lagged == 0,
            res.total_lagged_count == 0,
    {
        BackpressureStats {
            state_broadcasts_sent: 0,
            state_broadcasts_no_receivers: 0,
            output_messages_sent: 0,
            output_messages_lagged: 0,
            total_lagged_count: 0,
        }
    }

    /// Counts one state broadcast, and one with no receivers when
    /// `receiver_count` is 0.
    pub fn record_state_send(&mut self, receiver_count: usize)
        ensures
            final(self).state_broadcasts_sent == old(self).state_broadcasts_sent.wrapping_add(1),
            final(self).state_broadcasts_no_receivers == if receiver_count == 0 {
                old(self).state_broadcasts_no_receivers.wrapping_add(1)
            } else {
                old(self).state_broadcasts_no_receivers
            },
            final(self).output_messages_sent == old(self).output_messages_sent,
            final(self).output_messages_lagged == old(self).output_messages_lagged,
            final(self).total_lagged_count == old(self).total_lagged_count,
    {
        self.state_broadcasts_sent = self.state_broadcasts_sent.wrapping_add(1);
        if receiver_count == 0 {
            self.state_broadcasts_no_receivers = self.state_broadcasts_no_receivers.wrapping_add(1);
        }
    }

    /// Counts one output message.
    pub fn record_output_send(&mut self)
        ensures
            final(self).output_messages_sent == old(self).output_messages_sent.wrapping_add(1),
            final(self).state_broadcasts_sent == old(self).state_broadcasts_sent,
            final(self).state_broadcasts_no_receivers == old(self).state_broadcasts_no_receivers,
            final(self).output_messages_lagged == old(self).output_messages_lagged,
            final(self).total_lagged_count == old(self).total_lagged_count,
    {
        self.output_messages_sent = self.output_messages_sent.wrapping_add(1);
    }

    /// Counts one lagged receive that dropped `lag_count` messages.
    pub fn record_lag(&mut self, lag_count: u64)
        ensures
            final(self).output_messages_lagged == old(self).output_messages_lagged.wrapping_add(1),
            final(self).total_lagged_count == old(self).total_lagged_count.wrapping_add(lag_count),
            final(self).state_broadcasts_sent == old(self).state_broadcasts_sent,
            final(self).state_broadcasts_no_receivers == old(self).state_broadcasts_no_receivers,
            final(self).output_messages_sent == old(self).output_messages_sent,
    {
        self.output_messages_lagged = self.output_messages_lagged.wrapping_add(1);
        self.total_lagged_count = self.total_lagged_count.wrapping_add(lag_count);
    }

    /// The current counters.
    pub fn snapshot(&self) -> (res: BackpressureSnapshot)
        ensures
            res.state_broadcasts_sent == self.state_broadcasts_sent,
            res.state_broadcasts_no_receivers == self.state_broadcasts_no_receivers,
            res.output_messages_sent == self.output_messages_sent,
            res.output_messages_lagged == self.output_messages_lagged,
            res.total_lagged_count == self.total_lagged_count,
    {
        BackpressureSnapshot {
            state_broadcasts_sent: self.state_broadcasts_sent,
            state_broadcasts_no_receivers: self.state_broadcasts_no_receivers,
            output_messages_sent: self.output_messages_sent,
            output_messages_lagged: self.output_messages_lagged,
            total_lagged_count: self.total_lagged_count,
        }
    }
}

} // verus!
