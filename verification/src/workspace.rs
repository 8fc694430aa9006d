//! A workspace: connections, poll definitions and register aliases.

use std::collections::HashMap;
use vstd::prelude::*;

verus! {

/// How to reach a device.
#[derive(Debug, Clone)]
pub enum ConnectionConfig {
    Tcp {
        name: String,
        host: String,
        port: u16,
        unit_id: u8,
        timeout_ms: u64,
        retries: u32,
    },
    Rtu {
        name: String,
        port: String,
        baud_rate: u32,
        data_bits: u8,
        stop_bits: u8,
        /// `none`, `odd` or `even`.
        parity: String,
        unit_id: u8,
        inter_frame_ms: u64,
    },
}

/// A read that is repeated.
#[derive(Debug, Clone)]
pub struct PollConfig {
    pub name: String,
    /// The name of a connection.
    pub connection: String,
    /// 0x01 to 0x04.
    pub function: u8,
    pub start: u16,
    pub count: u16,
    pub interval_ms: u64,
}

/// What a workspace file holds.
#[derive(Debug)]
pub struct Workspace {
    pub schema: u32,
    pub connections: Vec<ConnectionConfig>,
    pub polls: Vec<PollConfig>,
    pub aliases: HashMap<String, String>,
}

impl Workspace {
    /// An empty workspace of the current schema.
    pub fn new() -> (r: Self)
        ensures
            r.schema == 1,
            r.connections@ == Seq::<ConnectionConfig>::empty(),
            r.polls@ == Seq::<PollConfig>::empty(),
            r.aliases@ == Map::<String, String>::empty(),
    {
        Workspace {
            schema: 1,
            connections: Vec::new(),
            polls: Vec::new(),
            aliases: HashMap::new(),
        }
    }

    /// Accepts a workspace that was read from a file, unless its schema is zero.
    pub fn accept(self) -> (r: Result<Self, String>)
        ensures
            match r {
                Ok(ws) => self.schema != 0 && ws == self,
                Err(m) => self.schema == 0 && m@ == "unsupported workspace schema"@,
            },
    {
        if self.schema == 0 {
            Err("unsupported workspace schema".to_owned())
        } else {
            Ok(self)
        }
    }
}

impl Default for Workspace {
    fn default() -> (r: Self)
        ensures
            r.schema == 0,
            r.connections@ == Seq::<ConnectionConfig>::empty(),
            r.polls@ == Seq::<PollConfig>::empty(),
            r.aliases@ == Map::<String, String>::empty(),
    {
        Workspace {
            schema: 0,
            connections: Vec::new(),
            polls: Vec::new(),
            aliases: HashMap::new(),
        }
    }
}

} // verus!
