//! The version-independent entity records handed to callers.
//!
//! Each record is flat: scalars, strings, optional fields and simple
//! collections.  Fields that an older dialect does not carry are `None`
//! ("unknown"), never a fabricated default, except where the old dialect's
//! own semantics make zero the right reading (session byte counters).
//! Addresses are carried as the strings the wire uses; durations are
//! structured seconds plus nanoseconds.

use vstd::prelude::*;

verus! {

/// A span of time: whole seconds and a nanosecond remainder below one
/// second.
#[derive(Clone, Copy, PartialEq, Eq, Structural, Debug)]
pub struct DurationValue {
    pub secs: u64,
    pub nanos: u32,
}

impl DurationValue {
    pub open spec fn wf(self) -> bool {
        self.nanos < 1_000_000_000
    }

    pub open spec fn spec_from_nanos(n: u64) -> DurationValue {
        DurationValue { secs: n / 1_000_000_000, nanos: (n % 1_000_000_000) as u32 }
    }

    /// Split a nanosecond count into seconds and remainder.
    pub fn from_nanos(n: u64) -> (r: DurationValue)
        ensures
            r == Self::spec_from_nanos(n),
            r.wf(),
            r.secs * 1_000_000_000 + r.nanos == n,
    {
        let r = DurationValue { secs: n / 1_000_000_000, nanos: (n % 1_000_000_000) as u32 };
        proof {
            assert(n / 1_000_000_000 * 1_000_000_000 + n % 1_000_000_000 == n) by (nonlinear_arith);
        }
        r
    }
}

/// One peering, active or configured.
#[derive(Debug, PartialEq)]
pub struct PeerEntry {
    pub address: Option<String>,
    pub key: String,
    pub port: u64,
    pub priority: Option<u64>,
    pub remote: Option<String>,
    pub bytes_recvd: Option<u64>,
    pub bytes_sent: Option<u64>,
    pub uptime: Option<DurationValue>,
    pub up: bool,
    pub inbound: bool,
    pub last_error: Option<String>,
    pub last_error_time: Option<DurationValue>,
}

/// One active end-to-end session.
#[derive(Debug, PartialEq)]
pub struct SessionEntry {
    pub address: String,
    pub key: String,
    pub bytes_recvd: Option<u64>,
    pub bytes_sent: Option<u64>,
    pub uptime: Option<DurationValue>,
}

/// The local node's own description.
#[derive(Debug, PartialEq)]
pub struct SelfEntry {
    pub build_name: String,
    pub build_version: String,
    pub key: String,
    pub address: String,
    pub subnet: String,
    pub routing_entries: Option<u64>,
}

/// One known source-routed path.
#[derive(Debug, PartialEq)]
pub struct PathEntry {
    pub address: String,
    pub key: String,
    pub path: Vec<u64>,
    pub sequence: Option<u64>,
}

/// One DHT neighbour.
#[derive(Debug, PartialEq)]
pub struct DHTEntry {
    pub address: String,
    pub key: String,
    pub port: u64,
    pub rest: u64,
}

/// The local tunnel interface.
#[derive(Debug, PartialEq)]
pub struct TunEntry {
    pub enabled: bool,
    pub name: Option<String>,
    pub mtu: Option<u64>,
}

/// One node of the spanning tree.
#[derive(Debug, PartialEq)]
pub struct TreeEntry {
    pub address: String,
    pub key: String,
    pub parent: String,
    pub sequence: u64,
}

/// One remote command the daemon offers.
#[derive(Debug, PartialEq)]
pub struct ListEntry {
    pub command: String,
    pub description: String,
    pub fields: Option<Vec<String>>,
}

/// The payload of an operation that returns nothing on success.
#[derive(Debug, PartialEq, Eq, Structural)]
pub struct Empty {}

} // verus!
