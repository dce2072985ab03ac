//! Entries that are kept in the table of a database, with all of them in
//! memory too.
//!
//! Reading looks into memory alone. What changes there is noted as a write to
//! the table, for whoever holds the database.

use vstd::prelude::*;
use std::sync::Arc;
use crate::codec::header::IPv8Address;
use crate::resolver::clock::TimeBase;
use crate::resolver::record;
use crate::resolver::record::Entry;
use crate::resolver::row;
use crate::resolver::row::Row;
use crate::resolver::store;
use crate::resolver::store::{MemStore, Store};

verus! {

/// A write to the table.
#[derive(Debug, Clone)]
pub enum Write {
    /// Puts a row in, in place of the one for its address.
    Upsert(Row),
    /// Takes out the rows whose time was over at a time of day, in
    /// milliseconds: `registered_at + ttl <= until`.
    Sweep { until: u64 },
}

/// A change of what is kept.
pub ghost enum Change {
    Put(IPv8Address, record::EntryView),
    /// What has gone stale goes.
    Sweep(u64),
}

/// What is kept after some changes.
pub open spec fn replayed(m: Map<IPv8Address, record::EntryView>, log: Seq<Change>) -> Map<IPv8Address, record::EntryView>
    decreases log.len(),
{
    if log.len() == 0 {
        m
    } else {
        let before = replayed(m, log.drop_last());
        match log.last() {
            Change::Put(a, e) => before.insert(a, e),
            Change::Sweep(now) => store::live(before, now),
        }
    }
}

/// Whether the times of a change have a time of day.
pub open spec fn on_clock(c: Change, base: TimeBase) -> bool {
    match c {
        Change::Put(_, e) => row::entry_on_clock(e, base),
        Change::Sweep(now) => base.day_time(now) <= u64::MAX,
    }
}

/// The changes that can be written.
pub open spec fn writable(log: Seq<Change>, base: TimeBase) -> Seq<Change>
    decreases log.len(),
{
    if log.len() == 0 {
        Seq::empty()
    } else if on_clock(log.last(), base) {
        writable(log.drop_last(), base).push(log.last())
    } else {
        writable(log.drop_last(), base)
    }
}

/// Whether a write makes a change in the table.
pub open spec fn is_write(w: Write, c: Change, base: TimeBase) -> bool {
    match c {
        Change::Put(a, e) => w matches Write::Upsert(r) && row::row_writes(r, a, e, base),
        Change::Sweep(now) => w matches Write::Sweep { until } && until == base.day_time(now),
    }
}

/// Whether writes make changes in the table, one by one.
pub open spec fn are_writes(w: Seq<Write>, c: Seq<Change>, base: TimeBase) -> bool {
    w.len() == c.len() && forall|i: int| 0 <= i < w.len() ==> is_write(#[trigger] w[i], c[i], base)
}

/// Whether a row is worth loading: its time is not over, and the clock has its
/// times.
pub open spec fn is_current(r: Row, base: TimeBase) -> bool {
    r.registered_at + r.ttl > base.system && row::row_on_clock(r, base)
}

/// The rows among the first `n` that are worth loading.
pub open spec fn current_rows(rows: Seq<Row>, n: int, base: TimeBase) -> Seq<Row>
    decreases n,
{
    if n <= 0 {
        Seq::empty()
    } else if is_current(rows[n - 1], base) {
        current_rows(rows, n - 1, base).push(rows[n - 1])
    } else {
        current_rows(rows, n - 1, base)
    }
}

/// A store whose entries are in the table of a database too.
pub struct SqliteStore {
    cache: MemStore,
    base: TimeBase,
    pending: Vec<Write>,
    start: Ghost<Map<IPv8Address, record::EntryView>>,
    log: Ghost<Seq<Change>>,
}

/// Whether a time has a time of day.
fn has_day_time(base: &TimeBase, t: u64) -> (r: bool)
    ensures
        r == (base.day_time(t) <= u64::MAX),
{
    if t >= base.instant {
        base.system.checked_add(t - base.instant).is_some()
    } else {
        true
    }
}

/// Whether the clock has a time of day.
fn has_clock_time(base: &TimeBase, t: u64) -> (r: bool)
    ensures
        r == (base.clock_time(t) <= u64::MAX),
{
    if t >= base.system {
        base.instant.checked_add(t - base.system).is_some()
    } else {
        true
    }
}

/// Whether a row is worth loading.
fn current(r: &Row, base: &TimeBase) -> (b: bool)
    ensures
        b == is_current(*r, *base),
{
    let over = match r.registered_at.checked_add(r.ttl) {
        Some(end) => end <= base.system,
        None => false,
    };
    let seen_ok = match r.observed_at {
        Some(t) => has_clock_time(base, t),
        None => true,
    };
    !over && has_clock_time(base, r.registered_at) && seen_ok
}

impl SqliteStore {
    /// What was kept when the writes were last taken.
    pub closed spec fn start(&self) -> Map<IPv8Address, record::EntryView> {
        self.start@
    }

    /// The changes since then.
    pub closed spec fn log(&self) -> Seq<Change> {
        self.log@
    }

    /// Both clocks, by which times are written.
    pub closed spec fn clocks(&self) -> TimeBase {
        self.base
    }

    /// Loads the rows of a table that are worth it; counts those that are no
    /// entries.
    pub fn open(rows: Vec<Row>, base: TimeBase) -> (r: (Self, usize))
        ensures
            r.0.wf(),
            r.0.clocks() == base,
            r.0.log().len() == 0,
            ({
                let c = current_rows(rows@, rows@.len() as int, base);
                &&& r.0.contents() == row::loaded(c, c.len() as int, base)
                &&& r.1 == row::rejected(c, c.len() as int, base)
            }),
    {
        let mut good: Vec<Row> = Vec::new();
        let n: usize = rows.len();
        let mut i: usize = 0;
        for r in it: rows
            invariant
                i == it.index(),
                it.seq() == rows@,
                n == rows@.len(),
                good@ == current_rows(rows@, i as int, base),
                forall|j: int| 0 <= j < good@.len() ==> row::row_on_clock(#[trigger] good@[j], base),
        {
            if current(&r, &base) {
                good.push(r);
            }
            i = i + 1;
        }
        let (cache, bad): (MemStore, usize) = row::load_rows(&good, &base);
        let ghost m = cache.contents();
        let pending: Vec<Write> = Vec::new();
        (SqliteStore { cache, base, pending, start: Ghost(m), log: Ghost(Seq::empty()) }, bad)
    }

    /// Takes the writes that are to be made in the table.
    pub fn take_writes(&mut self) -> (w: Vec<Write>)
        requires
            old(self).wf(),
        ensures
            final(self).wf(),
            final(self).contents() == old(self).contents(),
            final(self).clocks() == old(self).clocks(),
            final(self).start() == old(self).contents(),
            final(self).log().len() == 0,
            are_writes(w@, writable(old(self).log(), old(self).clocks()), old(self).clocks()),
    {
        let mut w: Vec<Write> = Vec::new();
        w.append(&mut self.pending);
        proof {
            self.start = Ghost(self.cache.contents());
            self.log = Ghost(Seq::empty());
            assert(w@ =~= old(self).pending@);
        }
        w
    }
}

impl Store for SqliteStore {
    closed spec fn wf(&self) -> bool {
        &&& self.cache.wf()
        &&& self.cache.contents() == replayed(self.start@, self.log@)
        &&& are_writes(self.pending@, writable(self.log@, self.base), self.base)
    }

    closed spec fn contents(&self) -> Map<IPv8Address, record::EntryView> {
        self.cache.contents()
    }

    closed spec fn swept(&self, now: u64) -> nat {
        self.cache.swept(now)
    }

    fn get(&mut self, addr: &IPv8Address, now: u64) -> (r: Option<Arc<Entry>>)
        ensures
            final(self).log() == old(self).log(),
            final(self).start() == old(self).start(),
            final(self).clocks() == old(self).clocks(),
    {
        self.cache.get(addr, now)
    }

    fn insert(&mut self, addr: IPv8Address, e: Entry)
        ensures
            final(self).log() == old(self).log().push(Change::Put(addr, e@)),
            final(self).start() == old(self).start(),
            final(self).clocks() == old(self).clocks(),
    {
        let ghost c = Change::Put(addr, e@);
        let seen_ok = match &e.rec.observed {
            Some((_, t)) => has_day_time(&self.base, *t),
            None => true,
        };
        if has_day_time(&self.base, e.rec.registered_at) && seen_ok {
            self.pending.push(Write::Upsert(row::entry_to_row(&addr, &e, &self.base)));
        }
        self.cache.insert(addr, e);
        proof {
            self.log = Ghost(old(self).log@.push(c));
            assert(self.log@.drop_last() =~= old(self).log@);
        }
    }

    fn sweep_expired(&mut self, now: u64) -> (n: usize)
        ensures
            final(self).log() == old(self).log().push(Change::Sweep(now)),
            final(self).start() == old(self).start(),
            final(self).clocks() == old(self).clocks(),
    {
        if has_day_time(&self.base, now) {
            self.pending.push(Write::Sweep { until: self.base.to_system(now) });
        }
        let n: usize = self.cache.sweep_expired(now);
        proof {
            self.log = Ghost(old(self).log@.push(Change::Sweep(now)));
            assert(self.log@.drop_last() =~= old(self).log@);
        }
        n
    }

    fn len(&self) -> (n: usize) {
        self.cache.len()
    }
}

/// Nothing is kept but what was there when the writes were last taken and what
/// was changed since.
pub proof fn changes_make_the_contents(s: SqliteStore)
    requires
        s.wf(),
    ensures
        s.contents() == replayed(s.start(), s.log()),
{
}

/// Where all changes can be written, each of them is.
pub proof fn every_change_is_written(log: Seq<Change>, base: TimeBase)
    requires
        forall|i: int| 0 <= i < log.len() ==> on_clock(#[trigger] log[i], base),
    ensures
        writable(log, base) == log,
    decreases log.len(),
{
    if log.len() > 0 {
        assert forall|i: int| 0 <= i < log.drop_last().len() implies on_clock(#[trigger] log.drop_last()[i], base) by {
            assert(log.drop_last()[i] == log[i]);
        }
        every_change_is_written(log.drop_last(), base);
        assert(log.drop_last().push(log.last()) =~= log);
    } else {
        assert(writable(log, base) =~= log);
    }
}

/// A row goes from the table at the very time at which its entry goes from
/// memory.
pub proof fn table_is_swept_alike(
    r: Row,
    addr: IPv8Address,
    e: record::EntryView,
    base: TimeBase,
    w: Write,
    now: u64,
)
    requires
        row::row_writes(r, addr, e, base),
        is_write(w, Change::Sweep(now), base),
        base.instant <= base.system + e.rec.registered_at,
        base.instant <= base.system + now,
        e.rec.registered_at + e.rec.ttl <= u64::MAX,
    ensures
        e.rec.expired(now) == (r.registered_at + r.ttl <= w->until),
{
}

/// A row whose time is over is not loaded, one whose time is not over is.
pub proof fn rows_that_hold_are_current(r: Row, base: TimeBase)
    requires
        row::row_on_clock(r, base),
    ensures
        is_current(r, base) <==> r.registered_at + r.ttl > base.system,
{
}

/// The current rows are loaded in their order, and no others.
pub proof fn current_rows_are_kept(rows: Seq<Row>, n: int, base: TimeBase)
    requires
        0 <= n <= rows.len(),
    ensures
        forall|r: Row| #[trigger] current_rows(rows, n, base).contains(r) <==> rows.subrange(0, n).contains(r) && is_current(
            r,
            base,
        ),
    decreases n,
{
    let c = current_rows(rows, n, base);
    if n > 0 {
        current_rows_are_kept(rows, n - 1, base);
        let d = current_rows(rows, n - 1, base);
        let s = rows.subrange(0, n);
        let t = rows.subrange(0, n - 1);
        assert forall|r: Row| #[trigger] c.contains(r) <==> s.contains(r) && is_current(r, base) by {
            if c.contains(r) {
                let i = choose|i: int| 0 <= i < c.len() && c[i] == r;
                if i < d.len() {
                    assert(d[i] == r);
                    assert(d.contains(r));
                    assert(t.contains(r));
                    let j = choose|j: int| 0 <= j < t.len() && t[j] == r;
                    assert(s[j] == r);
                } else {
                    assert(s[n - 1] == r);
                }
            }
            if s.contains(r) && is_current(r, base) {
                let j = choose|j: int| 0 <= j < s.len() && s[j] == r;
                if j < n - 1 {
                    assert(t[j] == r);
                    assert(d.contains(r));
                    let i = choose|i: int| 0 <= i < d.len() && d[i] == r;
                    assert(c[i] == r);
                } else {
                    assert(c[d.len() as int] == r);
                }
            }
        }
    } else {
        assert(rows.subrange(0, 0) =~= Seq::empty());
    }
}

/// A change is written as what it is: a put as the row of its entry, a sweep as the
/// time of day up to which rows are over.
pub proof fn writes_say_what_changed(w: Write, c: Change, base: TimeBase)
    requires
        is_write(w, c, base),
    ensures
        c matches Change::Put(a, e) ==> w is Upsert && w->Upsert_0.ed_pub@ == e.ed_pub && w->Upsert_0.tunnel_entry@
            == e.rec.tunnel_entry && w->Upsert_0.ttl == e.rec.ttl,
        c matches Change::Sweep(now) ==> w is Sweep && w->until == base.day_time(now),
{
}

/// What the changes make of the entries: a put entry is there with what was put,
/// and a sweep takes those whose time is over and no others.
pub proof fn changes_are_replayed(m: Map<IPv8Address, record::EntryView>, log: Seq<Change>, a: IPv8Address)
    requires
        log.len() > 0,
    ensures
        ({
            let before = replayed(m, log.drop_last());
            let after = replayed(m, log);
            &&& log.last() matches Change::Put(b, e) ==> after.contains_key(b) && after[b] == e && (a != b ==> (
            after.contains_key(a) == before.contains_key(a) && (before.contains_key(a) ==> after[a] == before[a])))
            &&& log.last() matches Change::Sweep(now) ==> (after.contains_key(a) <==> before.contains_key(a) && (
            now < before[a].rec.registered_at + before[a].rec.ttl <= u64::MAX || (before[a].rec.registered_at
                + before[a].rec.ttl > u64::MAX && before[a].rec.registered_at > now))) && (after.contains_key(a) ==> after[a] == before[a])
        }),
{
}

} // verus!
