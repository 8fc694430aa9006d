//! Polls: reads that are repeated in the background, several at a time.

use std::collections::HashSet;
use vstd::prelude::*;
use vstd::string::*;
use crate::commands::{build_read_pdu, decode_read, func_code, parse_func, read_values};
use crate::hex::{hex_encode, hex_text};
use crate::slave::read_pdu;
use crate::text::{decimal, push_decimal};

verus! {

/// The polls that are running, by their ids.
#[derive(Debug)]
pub struct PollTable {
    ids: HashSet<u32>,
    running: bool,
}

impl PollTable {
    /// The ids of the polls that are running.
    pub closed spec fn polls(&self) -> Set<u32> {
        self.ids@
    }

    /// Whether any poll is running.
    pub closed spec fn flag(&self) -> bool {
        self.running
    }

    /// The flag is up exactly while some poll is running.
    pub open spec fn wf(&self) -> bool {
        self.flag() <==> !(self.polls() =~= Set::<u32>::empty())
    }

    /// No poll is running.
    pub fn new() -> (r: Self)
        ensures
            r.wf(),
            r.polls() == Set::<u32>::empty(),
    {
        PollTable { ids: HashSet::new(), running: false }
    }

    /// Whether any poll is running.
    pub fn is_running(&self) -> (r: bool)
        requires
            self.wf(),
        ensures
            r == !(self.polls() =~= Set::<u32>::empty()),
    {
        self.running
    }

    /// Enters a poll. Refused where a poll with that id is running.
    pub fn start_poll(&mut self, poll_id: u32) -> (r: Result<(), String>)
        requires
            old(self).wf(),
        ensures
            final(self).wf(),
            match r {
                Ok(_) => !old(self).polls().contains(poll_id) && final(self).polls()
                    == old(self).polls().insert(poll_id),
                Err(m) => {
                    &&& old(self).polls().contains(poll_id)
                    &&& m@ == "poll "@ + decimal(poll_id as nat) + " already running"@
                    &&& final(self).polls() == old(self).polls()
                },
            },
    {
        if self.ids.contains(&poll_id) {
            let mut m = "poll ".to_owned();
            push_decimal(&mut m, poll_id as u64);
            m.append(" already running");
            return Err(m);
        }
        self.ids.insert(poll_id);
        self.running = true;
        assert(self.polls().contains(poll_id));
        Ok(())
    }

    /// Takes a poll out. Returns whether it was running; stopping one that is not
    /// changes nothing.
    pub fn stop_poll(&mut self, poll_id: u32) -> (r: bool)
        requires
            old(self).wf(),
        ensures
            final(self).wf(),
            r == old(self).polls().contains(poll_id),
            final(self).polls() == old(self).polls().remove(poll_id),
    {
        let was: bool = self.ids.remove(&poll_id);
        if self.ids.is_empty() {
            self.running = false;
            assert(self.ids@ =~= Set::<u32>::empty());
        } else {
            assert(!(self.ids@ =~= Set::<u32>::empty()));
            assert(!(old(self).polls() =~= Set::<u32>::empty())) by {
                if old(self).polls() =~= Set::<u32>::empty() {
                    assert(self.ids@ =~= Set::<u32>::empty());
                }
            }
        }
        was
    }

    /// Takes all polls out.
    pub fn stop_all_polls(&mut self)
        ensures
            final(self).wf(),
            final(self).polls() == Set::<u32>::empty(),
    {
        self.ids.clear();
        self.running = false;
    }
}

/// What a poll reads.
#[derive(Debug)]
pub struct Poll {
    pub poll_id: u32,
    pub poll_name: String,
    pub code: u8,
    pub addr: u16,
    pub count: u16,
    pub unit_id: u8,
}

/// One exchange of frames, with the round-trip time and the response PDU.
#[derive(Debug)]
pub struct Exchange {
    pub tx: Vec<u8>,
    pub rx: Vec<u8>,
    pub rtt_ms: u64,
    pub resp: Vec<u8>,
}

/// What is shown of one cycle of a poll.
#[derive(Debug)]
pub struct PollFrame {
    pub poll_id: u32,
    pub poll_name: String,
    pub addr: u16,
    pub regs: Option<Vec<u16>>,
    pub tx: String,
    pub rx: String,
    pub rtt_ms: Option<u64>,
    pub error: Option<String>,
}

impl Poll {
    /// A poll of the function that a text asks for.
    pub fn new(
        poll_id: u32,
        poll_name: String,
        func: &str,
        addr: u16,
        count: u16,
        unit_id: u8,
    ) -> (r: Self)
        ensures
            r.poll_id == poll_id,
            r.poll_name == poll_name,
            r.code == func_code(func@),
            r.addr == addr,
            r.count == count,
            r.unit_id == unit_id,
    {
        Poll { poll_id, poll_name, code: parse_func(func), addr, count, unit_id }
    }

    /// The request of every cycle.
    pub fn request(&self) -> (r: Vec<u8>)
        ensures
            r@ == read_pdu(self.code, self.addr, self.count),
    {
        build_read_pdu(self.code, self.addr, self.count)
    }

    /// What is shown of a cycle: the values and frames of an exchange, or an error.
    /// `None`, where the connection is gone, ends the poll.
    pub fn on_outcome(&self, outcome: Option<Result<Exchange, String>>) -> (r: Option<PollFrame>)
        ensures
            match outcome {
                None => r is None,
                Some(o) => r matches Some(f) && f.poll_id == self.poll_id && f.poll_name@
                    == self.poll_name@ && f.addr == self.addr && match o {
                    Ok(x) => {
                        &&& f.regs matches Some(v) && v@ == read_values(
                            x.resp@,
                            self.code,
                            self.count as nat,
                        )
                        &&& f.tx@ == hex_text(x.tx@)
                        &&& f.rx@ == hex_text(x.rx@)
                        &&& f.rtt_ms == Some(x.rtt_ms)
                        &&& f.error is None
                    },
                    Err(m) => {
                        &&& f.regs is None
                        &&& f.tx@ == Seq::<char>::empty()
                        &&& f.rx@ == Seq::<char>::empty()
                        &&& f.rtt_ms is None
                        &&& f.error == Some(m)
                    },
                },
            },
    {
        match outcome {
            None => None,
            Some(Ok(x)) => Some(
                PollFrame {
                    poll_id: self.poll_id,
                    poll_name: self.poll_name.clone(),
                    addr: self.addr,
                    regs: Some(decode_read(x.resp.as_slice(), self.code, self.count as usize)),
                    tx: hex_encode(x.tx.as_slice()),
                    rx: hex_encode(x.rx.as_slice()),
                    rtt_ms: Some(x.rtt_ms),
                    error: None,
                },
            ),
            Some(Err(m)) => Some(
                PollFrame {
                    poll_id: self.poll_id,
                    poll_name: self.poll_name.clone(),
                    addr: self.addr,
                    regs: None,
                    tx: String::new(),
                    rx: String::new(),
                    rtt_ms: None,
                    error: Some(m),
                },
            ),
        }
    }
}

} // verus!
