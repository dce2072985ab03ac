//! What the resolver knows of a node.
//!
//! Times are in milliseconds of one clock that does not go back.

use vstd::prelude::*;
use crate::resolver::list::TextList;

verus! {

/// How long an entry holds unless asked otherwise: 5 minutes.
pub const DEFAULT_TTL: u64 = 300_000;

/// How long an entry holds at most: a day.
pub const MAX_TTL: u64 = 86_400_000;

/// How large packets may be unless the node says otherwise.
pub const DEFAULT_MTU: u32 = 1432;

/// How long the address that a node was seen at is good for.
pub const OBSERVED_MAX_AGE: u64 = 90_000;

/// How far apart the two calls of a rendezvous may be.
pub const RENDEZVOUS_WINDOW: u64 = 90_000;

/// How many addresses a node may report for itself.
pub const MAX_LOCAL_CANDIDATES: usize = 8;

/// How long such an address may be, in bytes.
pub const MAX_CANDIDATE_LEN: usize = 64;

/// Where a node can be reached.
#[derive(Debug, Clone, PartialEq, Eq)]
pub struct NodeRecord {
    /// The entry of its tunnel, as "ip:port".
    pub tunnel_entry: String,
    /// Other entries.
    pub alt_entries: TextList,
    /// Whether it speaks IPv8+.
    pub ipv8_capable: bool,
    /// How large packets may be; 0 where it does not say.
    pub mtu: u32,
    pub registered_at: u64,
    pub ttl: u64,
    /// The address that it was last seen at, and when.
    pub observed: Option<(String, u64)>,
    /// The addresses that it reports for itself.
    pub local_candidates: TextList,
}

/// A node's record as a mathematical value.
pub ghost struct RecordView {
    pub tunnel_entry: Seq<char>,
    pub alt_entries: Seq<Seq<char>>,
    pub ipv8_capable: bool,
    pub mtu: u32,
    pub registered_at: u64,
    pub ttl: u64,
    pub observed: Option<(Seq<char>, u64)>,
    pub local_candidates: Seq<Seq<char>>,
}

/// An observed address as a mathematical value.
pub open spec fn seen(o: Option<(String, u64)>) -> Option<(Seq<char>, u64)> {
    match o {
        Some((a, t)) => Some((a@, t)),
        None => None,
    }
}

impl View for NodeRecord {
    type V = RecordView;

    open spec fn view(&self) -> RecordView {
        RecordView {
            tunnel_entry: self.tunnel_entry@,
            alt_entries: self.alt_entries@,
            ipv8_capable: self.ipv8_capable,
            mtu: self.mtu,
            registered_at: self.registered_at,
            ttl: self.ttl,
            observed: seen(self.observed),
            local_candidates: self.local_candidates@,
        }
    }
}

/// When something ends that begins at `base` and lasts `d`; at its beginning
/// where the clock has no such time.
pub open spec fn end_of(base: u64, d: u64) -> u64 {
    if base + d > u64::MAX {
        base
    } else {
        (base + d) as u64
    }
}

/// Adds a duration to a time.
pub fn add_secs(base: u64, d: u64) -> (t: u64)
    ensures
        t == end_of(base, d),
{
    match base.checked_add(d) {
        Some(t) => t,
        None => base,
    }
}

impl RecordView {
    /// Whether the record has gone stale.
    pub open spec fn expired(self, now: u64) -> bool {
        end_of(self.registered_at, self.ttl) <= now
    }

    /// The address that the node was seen at, where that is not long ago.
    pub open spec fn fresh(self, now: u64) -> Option<Seq<char>> {
        match self.observed {
            Some((a, t)) => if now - t <= OBSERVED_MAX_AGE {
                Some(a)
            } else {
                None
            },
            None => None,
        }
    }
}

impl NodeRecord {
    /// Whether the record has gone stale.
    pub fn is_expired(&self, now: u64) -> (r: bool)
        ensures
            r == self@.expired(now),
    {
        add_secs(self.registered_at, self.ttl) <= now
    }

    /// The address that the node was seen at, where that is not long ago.
    pub fn fresh_observed(&self, now: u64) -> (r: Option<&str>)
        ensures
            match r {
                Some(a) => self@.fresh(now) == Some(a@),
                None => self@.fresh(now) is None,
            },
    {
        match &self.observed {
            Some((a, t)) => if now.saturating_sub(*t) <= OBSERVED_MAX_AGE {
                Some(a.as_str())
            } else {
                None
            },
            None => None,
        }
    }

    /// A copy.
    pub fn copy(&self) -> (r: Self)
        ensures
            r@ == self@,
    {
        NodeRecord {
            tunnel_entry: self.tunnel_entry.clone(),
            alt_entries: self.alt_entries.clone(),
            ipv8_capable: self.ipv8_capable,
            mtu: self.mtu,
            registered_at: self.registered_at,
            ttl: self.ttl,
            observed: copy_seen(&self.observed),
            local_candidates: self.local_candidates.clone(),
        }
    }
}

/// A copy of an observed address.
pub fn copy_seen(o: &Option<(String, u64)>) -> (r: Option<(String, u64)>)
    ensures
        seen(r) == seen(*o),
{
    match o {
        Some((a, t)) => Some((a.clone(), *t)),
        None => None,
    }
}

/// A node's key and its record.
#[derive(Debug, Clone)]
pub struct Entry {
    pub ed_pub: [u8; 32],
    pub rec: NodeRecord,
}

/// An entry as a mathematical value.
pub ghost struct EntryView {
    pub ed_pub: Seq<u8>,
    pub rec: RecordView,
}

impl View for Entry {
    type V = EntryView;

    open spec fn view(&self) -> EntryView {
        EntryView { ed_pub: self.ed_pub@, rec: self.rec@ }
    }
}

impl Entry {
    /// A copy.
    pub fn copy(&self) -> (r: Self)
        ensures
            r@ == self@,
    {
        Entry { ed_pub: self.ed_pub, rec: self.rec.copy() }
    }
}

} // verus!
