//! Entries as rows of a table.

use vstd::prelude::*;
use crate::codec::header;
use crate::codec::header::{AddrParseError, IPv8Address};
use crate::resolver::clock::TimeBase;
use crate::resolver::json;
use crate::resolver::list;
use crate::resolver::list::TextList;
use crate::resolver::record;
use crate::resolver::record::{Entry, NodeRecord};
use crate::resolver::store::{MemStore, Store};
use crate::text;
use crate::wire;

verus! {

/// A row: texts as they are, lists as JSON, times in milliseconds since the
/// epoch.
#[derive(Debug, Clone)]
pub struct Row {
    pub addr_hex: String,
    pub ed_pub: Vec<u8>,
    pub tunnel_entry: String,
    pub alt_entries: String,
    pub ipv8_capable: i64,
    pub mtu: i64,
    pub registered_at: u64,
    pub ttl: u64,
    pub observed_addr: Option<String>,
    pub observed_at: Option<u64>,
    pub local_cands: String,
}

/// Why a row is no entry.
#[derive(Debug, Clone, Copy, PartialEq, Eq, Structural)]
pub enum RowError {
    /// Its address is none.
    BadAddress(AddrParseError),
    /// Its key is not as long as a key.
    BadKeyLength(usize),
}

/// Whether the clock has the times of a row.
pub open spec fn row_on_clock(r: Row, base: TimeBase) -> bool {
    &&& base.clock_time(r.registered_at) <= u64::MAX
    &&& r.observed_at matches Some(t) ==> base.clock_time(t) <= u64::MAX
}

/// Where and when a node was seen, in a row.
pub open spec fn row_seen(r: Row, base: TimeBase) -> Option<(Seq<char>, u64)> {
    match (r.observed_addr, r.observed_at) {
        (Some(a), Some(t)) => Some((a@, base.clock_time(t) as u64)),
        _ => None,
    }
}

/// The record of a row.
pub open spec fn row_record(r: Row, base: TimeBase) -> record::RecordView {
    record::RecordView {
        tunnel_entry: r.tunnel_entry@,
        alt_entries: json::list_of(r.alt_entries@),
        ipv8_capable: r.ipv8_capable != 0,
        mtu: r.mtu as u32,
        registered_at: base.clock_time(r.registered_at) as u64,
        ttl: r.ttl,
        observed: row_seen(r, base),
        local_candidates: json::list_of(r.local_cands@),
    }
}

/// The entry of a row.
pub open spec fn row_entry(r: Row, base: TimeBase) -> Result<(IPv8Address, record::EntryView), RowError> {
    match header::address_of_text(r.addr_hex@) {
        Err(e) => Err(RowError::BadAddress(e)),
        Ok(a) => if r.ed_pub@.len() != 32 {
            Err(RowError::BadKeyLength(r.ed_pub@.len() as usize))
        } else {
            Ok((a, record::EntryView { ed_pub: r.ed_pub@, rec: row_record(r, base) }))
        },
    }
}

/// The entry of a row.
pub fn row_to_entry(row: &Row, base: &TimeBase) -> (r: Result<(IPv8Address, Entry), RowError>)
    requires
        row_on_clock(*row, *base),
    ensures
        match r {
            Ok((a, e)) => row_entry(*row, *base) == Ok::<(IPv8Address, record::EntryView), RowError>((a, e@)),
            Err(x) => row_entry(*row, *base) == Err::<(IPv8Address, record::EntryView), RowError>(x),
        },
{
    let addr = match IPv8Address::from_canonical_str(row.addr_hex.as_str()) {
        Ok(a) => a,
        Err(e) => {
            return Err(RowError::BadAddress(e));
        },
    };
    if row.ed_pub.len() != 32 {
        return Err(RowError::BadKeyLength(row.ed_pub.len()));
    }
    let ed_pub = wire::array32(row.ed_pub.as_slice());
    assert(ed_pub@ =~= row.ed_pub@);
    let observed: Option<(String, u64)> = match (&row.observed_addr, row.observed_at) {
        (Some(a), Some(t)) => Some((a.clone(), base.to_instant(t))),
        _ => None,
    };
    let rec = NodeRecord {
        tunnel_entry: row.tunnel_entry.clone(),
        alt_entries: TextList::new(json::decode_json_strings(row.alt_entries.as_str())),
        ipv8_capable: row.ipv8_capable != 0,
        mtu: row.mtu as u32,
        registered_at: base.to_instant(row.registered_at),
        ttl: row.ttl,
        observed,
        local_candidates: TextList::new(json::decode_json_strings(row.local_cands.as_str())),
    };
    Ok((addr, Entry { ed_pub, rec }))
}

/// Whether the time of day of an entry's times is one.
pub open spec fn entry_on_clock(e: record::EntryView, base: TimeBase) -> bool {
    &&& base.day_time(e.rec.registered_at) <= u64::MAX
    &&& e.rec.observed matches Some((_, t)) ==> base.day_time(t) <= u64::MAX
}

/// Whether a row is what is written of an entry.
pub open spec fn row_writes(r: Row, addr: IPv8Address, e: record::EntryView, base: TimeBase) -> bool {
    &&& r.addr_hex@ == text::hex_text(addr.bytes())
    &&& r.ed_pub@ == e.ed_pub
    &&& r.tunnel_entry@ == e.rec.tunnel_entry
    &&& r.alt_entries@ == json::list_json(e.rec.alt_entries)
    &&& r.ipv8_capable == if e.rec.ipv8_capable {
        1int
    } else {
        0int
    }
    &&& r.mtu == e.rec.mtu
    &&& r.registered_at == base.day_time(e.rec.registered_at)
    &&& r.ttl == e.rec.ttl
    &&& match e.rec.observed {
        Some((a, t)) => r.observed_addr is Some && r.observed_addr->0@ == a && r.observed_at == Some(base.day_time(t) as u64),
        None => r.observed_addr is None && r.observed_at is None,
    }
    &&& r.local_cands@ == json::list_json(e.rec.local_candidates)
}

/// The row of an entry.
pub fn entry_to_row(addr: &IPv8Address, e: &Entry, base: &TimeBase) -> (r: Row)
    requires
        entry_on_clock(e@, *base),
    ensures
        row_writes(r, *addr, e@, *base),
{
    let (observed_addr, observed_at): (Option<String>, Option<u64>) = match &e.rec.observed {
        Some((a, t)) => (Some(a.clone()), Some(base.to_system(*t))),
        None => (None, None),
    };
    let ed_pub = wire::copy_range(e.ed_pub.as_slice(), 0, 32);
    assert(ed_pub@ =~= e.ed_pub@);
    Row {
        addr_hex: addr.to_canonical_string(),
        ed_pub,
        tunnel_entry: e.rec.tunnel_entry.clone(),
        alt_entries: json::encode_json_strings(list::as_slice(&e.rec.alt_entries)),
        ipv8_capable: if e.rec.ipv8_capable {
            1
        } else {
            0
        },
        mtu: e.rec.mtu as i64,
        registered_at: base.to_system(e.rec.registered_at),
        ttl: e.rec.ttl,
        observed_addr,
        observed_at,
        local_cands: json::encode_json_strings(list::as_slice(&e.rec.local_candidates)),
    }
}

/// The entries of the first `n` rows; rows that are no entries are passed
/// over, and of two rows for an address the later one counts.
pub open spec fn loaded(rows: Seq<Row>, n: int, base: TimeBase) -> Map<IPv8Address, record::EntryView>
    decreases n,
{
    if n <= 0 {
        Map::empty()
    } else {
        match row_entry(rows[n - 1], base) {
            Ok((a, e)) => loaded(rows, n - 1, base).insert(a, e),
            Err(_) => loaded(rows, n - 1, base),
        }
    }
}

/// The entries of rows, and how many rows are no entries.
pub fn load_rows(rows: &Vec<Row>, base: &TimeBase) -> (r: (MemStore, usize))
    requires
        forall|i: int| 0 <= i < rows@.len() ==> row_on_clock(#[trigger] rows@[i], *base),
    ensures
        r.0.wf(),
        r.0.contents() == loaded(rows@, rows@.len() as int, *base),
        r.1 == rejected(rows@, rows@.len() as int, *base),
{
    let mut s = MemStore::default();
    let mut bad: usize = 0;
    let mut i: usize = 0;
    while i < rows.len()
        invariant
            i <= rows.len(),
            bad <= i,
            forall|j: int| 0 <= j < rows@.len() ==> row_on_clock(#[trigger] rows@[j], *base),
            s.wf(),
            s.contents() == loaded(rows@, i as int, *base),
            bad == rejected(rows@, i as int, *base),
        decreases rows.len() - i,
    {
        match row_to_entry(&rows[i], base) {
            Ok((a, e)) => {
                s.insert(a, e);
            },
            Err(_) => {
                bad = bad + 1;
            },
        }
        i = i + 1;
    }
    (s, bad)
}

/// How many of the first `n` rows are no entries.
pub open spec fn rejected(rows: Seq<Row>, n: int, base: TimeBase) -> nat
    decreases n,
{
    if n <= 0 {
        0
    } else if row_entry(rows[n - 1], base) is Err {
        rejected(rows, n - 1, base) + 1
    } else {
        rejected(rows, n - 1, base)
    }
}

/// An entry comes back from its row as it was, but for times that lie more
/// than an hour back.
pub proof fn row_round_trip(r: Row, addr: IPv8Address, e: record::EntryView, base: TimeBase)
    requires
        addr.wf(),
        e.ed_pub.len() == 32,
        entry_on_clock(e, base),
        base.instant <= base.system + e.rec.registered_at && base.instant <= e.rec.registered_at
            + crate::resolver::clock::MAX_BACK,
        e.rec.observed matches Some((_, t)) ==> base.instant <= base.system + t && base.instant <= t
            + crate::resolver::clock::MAX_BACK,
        row_writes(r, addr, e, base),
    ensures
        row_on_clock(r, base),
        row_entry(r, base) == Ok::<(IPv8Address, record::EntryView), RowError>((addr, e)),
{
    header::address_text_round_trip(addr, r.addr_hex@);
    crate::resolver::json_laws::json_round_trip(e.rec.alt_entries);
    crate::resolver::json_laws::json_round_trip(e.rec.local_candidates);
    crate::resolver::clock::time_round_trip(base, e.rec.registered_at);
    match e.rec.observed {
        Some((_, t)) => {
            crate::resolver::clock::time_round_trip(base, t);
        },
        None => {},
    }
    assert(row_record(r, base) == e.rec);
}

/// An entry as a row, field by field: the address in hexadecimal digits, the key,
/// the lists as JSON, the times of day.
pub proof fn row_fields(r: Row, addr: IPv8Address, e: record::EntryView, base: TimeBase)
    requires
        row_writes(r, addr, e, base),
    ensures
        r.addr_hex@ == text::hex_text(addr.bytes()),
        r.ed_pub@ == e.ed_pub,
        r.tunnel_entry@ == e.rec.tunnel_entry,
        r.alt_entries@ == json::list_json(e.rec.alt_entries),
        r.local_cands@ == json::list_json(e.rec.local_candidates),
        (r.ipv8_capable == 1) == e.rec.ipv8_capable,
        (r.ipv8_capable == 0) == !e.rec.ipv8_capable,
        r.mtu == e.rec.mtu,
        r.ttl == e.rec.ttl,
        r.registered_at == base.day_time(e.rec.registered_at),
        r.observed_addr is Some == e.rec.observed is Some,
        r.observed_at is Some == e.rec.observed is Some,
        e.rec.observed matches Some((a, t)) ==> r.observed_addr->0@ == a && (base.day_time(t) <= u64::MAX ==> r.observed_at->0
            == base.day_time(t)),
{
}

/// A row as an entry, field by field.
pub proof fn entry_of_row(r: Row, base: TimeBase)
    requires
        row_on_clock(r, base),
    ensures
        row_entry(r, base) is Ok <==> header::address_of_text(r.addr_hex@) is Ok && r.ed_pub@.len() == 32,
        row_entry(r, base) matches Ok((a, e)) ==> {
            &&& header::address_of_text(r.addr_hex@) == Ok::<IPv8Address, AddrParseError>(a)
            &&& e.ed_pub == r.ed_pub@
            &&& e.rec.tunnel_entry == r.tunnel_entry@
            &&& e.rec.alt_entries == json::list_of(r.alt_entries@)
            &&& e.rec.local_candidates == json::list_of(r.local_cands@)
            &&& e.rec.ipv8_capable == (r.ipv8_capable != 0)
            &&& 0 <= r.mtu <= u32::MAX ==> e.rec.mtu == r.mtu
            &&& e.rec.ttl == r.ttl
            &&& e.rec.registered_at == base.clock_time(r.registered_at)
            &&& e.rec.observed is Some == (r.observed_addr is Some && r.observed_at is Some)
            &&& e.rec.observed matches Some((o, t)) ==> o == r.observed_addr->0@ && t == base.clock_time(r.observed_at->0)
        },
{
}

/// Of the rows of an address, the last good one is loaded.
pub proof fn last_row_is_loaded(rows: Seq<Row>, n: int, base: TimeBase, i: int)
    requires
        0 <= i < n <= rows.len(),
        row_entry(rows[i], base) is Ok,
        forall|j: int|
            i < j < n ==> (row_entry(#[trigger] rows[j], base) matches Ok((a, _)) ==> a != row_entry(rows[i], base)->Ok_0.0),
    ensures
        loaded(rows, n, base).contains_key(row_entry(rows[i], base)->Ok_0.0),
        loaded(rows, n, base)[row_entry(rows[i], base)->Ok_0.0] == row_entry(rows[i], base)->Ok_0.1,
    decreases n,
{
    if i < n - 1 {
        last_row_is_loaded(rows, n - 1, base, i);
    }
}

/// No entry is loaded that no row holds.
pub proof fn only_rows_are_loaded(rows: Seq<Row>, n: int, base: TimeBase, a: IPv8Address)
    requires
        0 <= n <= rows.len(),
        loaded(rows, n, base).contains_key(a),
    ensures
        exists|i: int|
            0 <= i < n && row_entry(#[trigger] rows[i], base) == Ok::<(IPv8Address, record::EntryView), RowError>(
                (a, loaded(rows, n, base)[a]),
            ),
    decreases n,
{
    if n > 0 {
        let before = loaded(rows, n - 1, base);
        match row_entry(rows[n - 1], base) {
            Ok((b, e)) => {
                if b == a {
                    assert(row_entry(rows[n - 1], base) == Ok::<(IPv8Address, record::EntryView), RowError>((a, e)));
                } else {
                    only_rows_are_loaded(rows, n - 1, base, a);
                }
            },
            Err(_) => {
                only_rows_are_loaded(rows, n - 1, base, a);
            },
        }
    }
}

/// Rows that are no entries are counted.
pub proof fn bad_rows_are_counted(rows: Seq<Row>, n: int, base: TimeBase)
    requires
        0 <= n,
    ensures
        rejected(rows, 0, base) == 0,
        rejected(rows, n + 1, base) == rejected(rows, n, base) + if header::address_of_text(rows[n].addr_hex@) is Ok
            && rows[n].ed_pub@.len() == 32 {
            0nat
        } else {
            1nat
        },
{
}

} // verus!
