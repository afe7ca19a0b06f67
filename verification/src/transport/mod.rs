//! Transport: flow identifiers, stream bookkeeping and bitrate adaptation.
pub mod adaptation;
pub mod integration;

use vstd::prelude::*;
use crate::error::{SfuError, TransportFault};

verus! {

/// The flow ids of one transport session: one counter for the flows it
/// sends on, one for the flows it receives on.
pub struct FlowIds {
    next_send: u64,
    next_recv: u64,
}

impl FlowIds {
    /// The number of send flows given out so far.
    pub closed spec fn sent(&self) -> int {
        self.next_send as int
    }

    /// The number of receive flows given out so far.
    pub closed spec fn received(&self) -> int {
        self.next_recv as int
    }

    /// No more ids were given out than there are.
    pub open spec fn wf(&self) -> bool {
        self.sent() <= 0x1_0000_0000 && self.received() <= 0x1_0000_0000
    }

    /// Counters that start at flow 0.
    pub fn new() -> (f: FlowIds)
        ensures
            f.wf(),
            f.sent() == 0,
            f.received() == 0,
    {
        FlowIds { next_send: 0, next_recv: 0 }
    }

    /// The id of the next send flow: one above the last, until all 2^32 are
    /// given out.
    pub fn new_send_flow(&mut self) -> (r: Result<u32, SfuError>)
        requires
            old(self).wf(),
        ensures
            final(self).wf(),
            final(self).received() == old(self).received(),
            match r {
                Ok(id) => id == old(self).sent() && final(self).sent() == old(self).sent() + 1,
                Err(e) => old(self).sent() == 0x1_0000_0000 && final(self).sent() == old(
                    self,
                ).sent() && e == SfuError::Transport(TransportFault::FlowUnavailable),
            },
    {
        if self.next_send > 0xFFFF_FFFF {
            return Err(SfuError::Transport(TransportFault::FlowUnavailable));
        }
        let id = self.next_send as u32;
        self.next_send = self.next_send + 1;
        Ok(id)
    }

    /// The id of the next receive flow: one above the last, until all 2^32
    /// are given out.
    pub fn new_receive_flow(&mut self) -> (r: Result<u32, SfuError>)
        requires
            old(self).wf(),
        ensures
            final(self).wf(),
            final(self).sent() == old(self).sent(),
            match r {
                Ok(id) => id == old(self).received() && final(self).received() == old(
                    self,
                ).received() + 1,
                Err(e) => old(self).received() == 0x1_0000_0000 && final(self).received() == old(
                    self,
                ).received() && e == SfuError::Transport(TransportFault::FlowUnavailable),
            },
    {
        if self.next_recv > 0xFFFF_FFFF {
            return Err(SfuError::Transport(TransportFault::FlowUnavailable));
        }
        let id = self.next_recv as u32;
        self.next_recv = self.next_recv + 1;
        Ok(id)
    }
}

/// The media transport: it makes the flow counters of each session.
pub struct DefaultMediaTransport {}

impl DefaultMediaTransport {
    /// The transport.
    pub fn new() -> (t: DefaultMediaTransport) {
        DefaultMediaTransport {  }
    }

    /// The flow counters of a new session.
    pub fn create_session(&self) -> (f: FlowIds)
        ensures
            f.wf(),
            f.sent() == 0,
            f.received() == 0,
    {
        FlowIds::new()
    }
}

} // verus!
