//! The slots of registered buffers.

use vstd::prelude::*;
use crate::node::args::RioMode;
use crate::node::sock;
use crate::node::sock::SockAddr;
use crate::wire;

verus! {

/// Bytes of a data slot: the longest UDP payload.
pub const SLOT_CAP: usize = 65_507;

/// Bytes of an address slot.
pub const ADDR_CAP: usize = 32;

/// How many completions are taken at once.
pub const DEQUEUE_BATCH: usize = 64;

pub const FULL_RECV_SLOTS: usize = 256;

pub const FULL_SEND_SLOTS: usize = 128;

pub const SMALL_RECV_SLOTS: usize = 64;

pub const SMALL_SEND_SLOTS: usize = 32;

/// What marks the context of a send.
pub const CTX_SEND_BIT: u64 = 0x8000_0000_0000_0000;

/// The bytes of a buffer with `n` data slots and `n` address slots; `None`
/// where that is no number.
pub fn checked_region(n: usize) -> (r: Option<usize>)
    ensures
        match r {
            Some(len) => len == n * SLOT_CAP + n * ADDR_CAP,
            None => n * SLOT_CAP + n * ADDR_CAP > usize::MAX,
        },
{
    match n.checked_mul(SLOT_CAP) {
        Some(d) => match n.checked_mul(ADDR_CAP) {
            Some(a) => d.checked_add(a),
            None => None,
        },
        None => None,
    }
}

/// A part of a registered buffer.
#[derive(Debug, Clone, Copy, PartialEq, Eq, Structural)]
pub struct Region {
    pub offset: u32,
    pub length: u32,
}

/// Where the data of slot `i` is: the data slots come first.
pub open spec fn data_offset(i: int) -> int {
    i * SLOT_CAP
}

/// Where the address of slot `i` is, behind `n` data slots.
pub open spec fn addr_offset(n: int, i: int) -> int {
    n * SLOT_CAP + i * ADDR_CAP
}

/// The parts of a buffer with `n` slots: data slots and address slots, each of
/// a given length.
pub fn regions(n: usize, data_len: u32, addr_len: u32) -> (r: (Vec<Region>, Vec<Region>))
    requires
        n * SLOT_CAP + n * ADDR_CAP <= u32::MAX,
    ensures
        r.0@.len() == n,
        r.1@.len() == n,
        forall|i: int|
            0 <= i < n ==> (#[trigger] r.0@[i]).offset == data_offset(i) && r.0@[i].length == data_len,
        forall|i: int|
            0 <= i < n ==> (#[trigger] r.1@[i]).offset == addr_offset(n as int, i) && r.1@[i].length == addr_len,
{
    let mut data: Vec<Region> = Vec::new();
    let mut addr: Vec<Region> = Vec::new();
    let mut i: usize = 0;
    while i < n
        invariant
            i <= n,
            n * SLOT_CAP + n * ADDR_CAP <= u32::MAX,
            data@.len() == i,
            addr@.len() == i,
            forall|j: int|
                0 <= j < i ==> (#[trigger] data@[j]).offset == data_offset(j) && data@[j].length == data_len,
            forall|j: int|
                0 <= j < i ==> (#[trigger] addr@[j]).offset == addr_offset(n as int, j) && addr@[j].length == addr_len,
        decreases n - i,
    {
        data.push(Region { offset: (i * SLOT_CAP) as u32, length: data_len });
        addr.push(Region { offset: (n * SLOT_CAP + i * ADDR_CAP) as u32, length: addr_len });
        i = i + 1;
    }
    (data, addr)
}

/// No two slots of a buffer overlap, and none is beyond its end.
pub proof fn slots_are_apart(n: int, i: int, j: int)
    requires
        0 <= i < n,
        0 <= j < n,
    ensures
        i != j ==> data_offset(i) + SLOT_CAP <= data_offset(j) || data_offset(j) + SLOT_CAP <= data_offset(i),
        i != j ==> addr_offset(n, i) + ADDR_CAP <= addr_offset(n, j) || addr_offset(n, j) + ADDR_CAP <= addr_offset(n, i),
        data_offset(i) + SLOT_CAP <= addr_offset(n, j),
        addr_offset(n, i) + ADDR_CAP <= n * SLOT_CAP + n * ADDR_CAP,
{
}

/// A slot that took a packet, the packet's length and where it came from.
#[derive(Debug, Clone, Copy, PartialEq, Eq)]
pub struct RioPacket {
    pub slot: usize,
    pub len: usize,
    pub from: SockAddr,
}

/// What a completion asks for.
#[derive(Debug, Clone, Copy, PartialEq, Eq)]
pub enum Completion {
    /// A send is done: free the slot.
    Sent { slot: usize },
    /// Nothing of use came: give the slot out again.
    Repost { slot: usize },
    /// A packet came.
    Packet(RioPacket),
}

/// The context of a send from a slot.
pub open spec fn send_context(slot: u64) -> u64 {
    (slot + CTX_SEND_BIT) as u64
}

/// The context of a send from a slot.
pub fn context_of_send(slot: usize) -> (c: u64)
    requires
        slot < CTX_SEND_BIT,
    ensures
        c == send_context(slot as u64),
{
    slot as u64 + CTX_SEND_BIT
}

/// What a completion asks for, given its context, its status, the bytes that
/// came and the address slot of a receive.
pub open spec fn completed(ctx: u64, status: i32, bytes: u32, region: Seq<u8>, c: Completion) -> bool {
    if ctx >= CTX_SEND_BIT {
        c == (Completion::Sent { slot: (ctx - CTX_SEND_BIT) as usize })
    } else if status != 0 || bytes == 0 || bytes > SLOT_CAP || !(sock::is_v4_wire(region) || sock::is_v6_wire(region)) {
        c == (Completion::Repost { slot: ctx as usize })
    } else {
        c matches Completion::Packet(p) && p.slot == ctx as usize && p.len == bytes && sock::reads_as(region, p.from)
    }
}

/// What a completion asks for.
pub fn classify(ctx: u64, status: i32, bytes: u32, region: &[u8]) -> (c: Completion)
    requires
        ctx % CTX_SEND_BIT <= usize::MAX,
    ensures
        completed(ctx, status, bytes, region@, c),
{
    if ctx >= CTX_SEND_BIT {
        return Completion::Sent { slot: (ctx - CTX_SEND_BIT) as usize };
    }
    let slot: usize = ctx as usize;
    if status != 0 || bytes == 0 {
        return Completion::Repost { slot };
    }
    match sock::decode_sockaddr(region) {
        Some(from) => if bytes as usize <= SLOT_CAP {
            Completion::Packet(RioPacket { slot, len: bytes as usize, from })
        } else {
            Completion::Repost { slot }
        },
        None => Completion::Repost { slot },
    }
}

/// Which slots are taken.
pub struct SlotTable {
    used: Vec<bool>,
}

impl View for SlotTable {
    type V = Seq<bool>;

    closed spec fn view(&self) -> Seq<bool> {
        self.used@
    }
}

impl SlotTable {
    /// A table of `n` free slots.
    pub fn new(n: usize) -> (t: Self)
        ensures
            t@ == Seq::new(n as nat, |i: int| false),
    {
        let mut used: Vec<bool> = Vec::new();
        let mut i: usize = 0;
        while i < n
            invariant
                i <= n,
                used@.len() == i,
                forall|j: int| 0 <= j < i ==> !#[trigger] used@[j],
            decreases n - i,
        {
            used.push(false);
            i = i + 1;
        }
        assert(used@ =~= Seq::new(n as nat, |i: int| false));
        SlotTable { used }
    }

    /// The number of slots.
    pub fn len(&self) -> (n: usize)
        ensures
            n == self@.len(),
    {
        self.used.len()
    }

    /// Takes the first free slot, if there is one.
    pub fn allocate(&mut self) -> (r: Option<usize>)
        ensures
            match r {
                Some(i) => i < old(self)@.len() && !old(self)@[i as int] && (forall|j: int|
                    0 <= j < i ==> #[trigger] old(self)@[j]) && final(self)@ == old(self)@.update(i as int, true),
                None => (forall|j: int| 0 <= j < old(self)@.len() ==> #[trigger] old(self)@[j]) && final(self)@ == old(
                    self,
                )@,
            },
    {
        let mut i: usize = 0;
        while i < self.used.len()
            invariant
                i <= self.used.len(),
                self.used@ == old(self).used@,
                forall|j: int| 0 <= j < i ==> #[trigger] self.used@[j],
            decreases self.used.len() - i,
        {
            if !self.used[i] {
                self.used[i] = true;
                return Some(i);
            }
            i = i + 1;
        }
        None
    }

    /// Gives a slot back.
    pub fn free(&mut self, slot: usize)
        requires
            slot < old(self)@.len(),
            old(self)@[slot as int],
        ensures
            final(self)@ == old(self)@.update(slot as int, false),
    {
        self.used[slot] = false;
    }
}

/// A slot that is taken is given out to nobody else until it is given back.
pub proof fn taken_slot_is_not_given_out(used: Seq<bool>, i: int, j: int)
    requires
        0 <= i < used.len(),
        !used[i],
        0 <= j < used.len(),
        used[j],
    ensures
        i != j,
        used.update(i, true)[j],
        used.update(i, true)[i],
{
}

/// A slot that was taken and given back leaves the table as it was.
pub proof fn free_undoes_allocate(used: Seq<bool>, i: int)
    requires
        0 <= i < used.len(),
        !used[i],
    ensures
        used.update(i, true).update(i, false) == used,
{
    assert(used.update(i, true).update(i, false) =~= used);
}

/// Why a datagram cannot be sent.
#[derive(Debug, Clone, Copy, PartialEq, Eq, Structural)]
pub enum SendError {
    /// It is longer than a slot.
    TooLong(usize),
    /// All slots are taken.
    Busy,
}

/// What is handed to the system to send a datagram.
#[derive(Debug, Clone, Copy, PartialEq, Eq, Structural)]
pub struct SendPlan {
    pub slot: usize,
    pub data: Region,
    pub addr: Region,
    pub context: u64,
}

/// A buffer with other bytes from a place on.
pub open spec fn overlaid(b: Seq<u8>, at: int, w: Seq<u8>) -> Seq<u8> {
    b.subrange(0, at) + w + b.subrange(at + w.len(), b.len() as int)
}

/// Puts bytes into a buffer.
fn overlay(b: &mut [u8], at: usize, w: &[u8])
    requires
        at + w@.len() <= old(b)@.len(),
    ensures
        final(b)@ == overlaid(old(b)@, at as int, w@),
{
    let n: usize = b.len();
    let mut i: usize = 0;
    while i < w.len()
        invariant
            i <= w.len(),
            at + w@.len() <= n,
            b@.len() == n,
            n == old(b)@.len(),
            forall|j: int| 0 <= j < i ==> #[trigger] b@[at + j] == w@[j],
            forall|j: int| 0 <= j < at || at + i <= j < b@.len() ==> #[trigger] b@[j] == old(b)@[j],
        decreases w.len() - i,
    {
        b[at + i] = w[i];
        i = i + 1;
    }
    assert forall|j: int| at <= j < at + w@.len() implies b@[j] == w@[j - at] by {
        assert(b@[at + (j - at)] == w@[j - at]);
    }
    assert(b@ =~= overlaid(old(b)@, at as int, w@));
}

/// Takes a slot and puts a datagram and its destination into the buffer of `n`
/// slots; tells what to hand to the system.
pub fn plan_send(table: &mut SlotTable, buf: &mut [u8], n: usize, data: &[u8], dest: &SockAddr) -> (r: Result<
    SendPlan,
    SendError,
>)
    requires
        old(table)@.len() == n,
        old(buf)@.len() == n * SLOT_CAP + n * ADDR_CAP,
        n * SLOT_CAP + n * ADDR_CAP <= u32::MAX,
    ensures
        match r {
            Err(SendError::TooLong(len)) => {
                &&& len == data@.len() && len > SLOT_CAP
                &&& final(table)@ == old(table)@
                &&& final(buf)@ == old(buf)@
            },
            Err(SendError::Busy) => {
                &&& data@.len() <= SLOT_CAP
                &&& forall|j: int| 0 <= j < n ==> #[trigger] old(table)@[j]
                &&& final(table)@ == old(table)@
                &&& final(buf)@ == old(buf)@
            },
            Ok(p) => {
                let w = sock::sock_wire(*dest);
                &&& data@.len() <= SLOT_CAP
                &&& p.slot < n && !old(table)@[p.slot as int]
                &&& forall|j: int| 0 <= j < p.slot ==> #[trigger] old(table)@[j]
                &&& final(table)@ == old(table)@.update(p.slot as int, true)
                &&& p.data.offset == data_offset(p.slot as int) && p.data.length == data@.len()
                &&& p.addr.offset == addr_offset(n as int, p.slot as int) && p.addr.length == w.len()
                &&& p.context == send_context(p.slot as u64)
                &&& final(buf)@ == overlaid(
                    overlaid(old(buf)@, p.data.offset as int, data@),
                    p.addr.offset as int,
                    w,
                )
            },
        },
{
    if data.len() > SLOT_CAP {
        return Err(SendError::TooLong(data.len()));
    }
    let slot: usize = match table.allocate() {
        Some(s) => s,
        None => {
            return Err(SendError::Busy);
        },
    };
    proof {
        slots_are_apart(n as int, slot as int, slot as int);
    }
    let data_at: usize = slot * SLOT_CAP;
    let addr_at: usize = n * SLOT_CAP + slot * ADDR_CAP;
    overlay(buf, data_at, data);
    let mut a: Vec<u8> = Vec::new();
    wire::put_zeros(&mut a, ADDR_CAP);
    let len: u32 = sock::encode_sockaddr(dest, a.as_mut_slice());
    assert(a@.subrange(0, len as int) =~= sock::sock_wire(*dest));
    overlay(buf, addr_at, vstd::slice::slice_subrange(a.as_slice(), 0, len as usize));
    Ok(
        SendPlan {
            slot,
            data: Region { offset: data_at as u32, length: data.len() as u32 },
            addr: Region { offset: addr_at as u32, length: len },
            context: context_of_send(slot),
        },
    )
}

/// A datagram and its destination are where the system is told to look, and no
/// other slot is disturbed.
pub proof fn send_disturbs_no_other_slot(b: Seq<u8>, n: int, i: int, j: int, data: Seq<u8>, w: Seq<u8>)
    requires
        0 <= i < n,
        0 <= j < n,
        i != j,
        b.len() == n * SLOT_CAP + n * ADDR_CAP,
        data.len() <= SLOT_CAP,
        w.len() <= ADDR_CAP,
    ensures
        ({
            let c = overlaid(overlaid(b, data_offset(i), data), addr_offset(n, i), w);
            &&& c.subrange(data_offset(i), data_offset(i) + data.len()) == data
            &&& c.subrange(addr_offset(n, i), addr_offset(n, i) + w.len()) == w
            &&& c.subrange(data_offset(j), data_offset(j) + SLOT_CAP) == b.subrange(
                data_offset(j),
                data_offset(j) + SLOT_CAP,
            )
            &&& c.subrange(addr_offset(n, j), addr_offset(n, j) + ADDR_CAP) == b.subrange(
                addr_offset(n, j),
                addr_offset(n, j) + ADDR_CAP,
            )
        }),
{
    slots_are_apart(n, i, j);
    slots_are_apart(n, j, i);
    slots_are_apart(n, i, i);
    slots_are_apart(n, j, j);
    let m = overlaid(b, data_offset(i), data);
    let c = overlaid(m, addr_offset(n, i), w);
    assert(m.len() == b.len());
    assert(c.len() == b.len());
    assert(c.subrange(data_offset(i), data_offset(i) + data.len()) =~= data);
    assert(c.subrange(addr_offset(n, i), addr_offset(n, i) + w.len()) =~= w);
    assert(c.subrange(data_offset(j), data_offset(j) + SLOT_CAP) =~= b.subrange(
        data_offset(j),
        data_offset(j) + SLOT_CAP,
    ));
    assert(c.subrange(addr_offset(n, j), addr_offset(n, j) + ADDR_CAP) =~= b.subrange(
        addr_offset(n, j),
        addr_offset(n, j) + ADDR_CAP,
    ));
}

/// What the system says of a request that is done.
#[derive(Debug, Clone, Copy, PartialEq, Eq, Structural)]
pub struct Done {
    pub context: u64,
    pub status: i32,
    pub bytes: u32,
}

/// The address slot of a receive.
pub open spec fn addr_region(buf: Seq<u8>, n: int, slot: int) -> Seq<u8> {
    buf.subrange(addr_offset(n, slot), addr_offset(n, slot) + ADDR_CAP)
}

/// Whether a request that is done was a send.
pub open spec fn is_send(d: Done) -> bool {
    d.context >= CTX_SEND_BIT
}

/// The slot of a send that is done.
pub open spec fn sent_slot(d: Done) -> int {
    d.context - CTX_SEND_BIT
}

/// Whether a receive that is done brought a packet.
pub open spec fn brings_packet(d: Done, buf: Seq<u8>, n: int) -> bool {
    let region = addr_region(buf, n, d.context as int);
    !is_send(d) && d.status == 0 && 0 < d.bytes <= SLOT_CAP && (sock::is_v4_wire(region) || sock::is_v6_wire(region))
}

/// Which slots are taken after some requests are done: those of sends are free.
pub open spec fn freed(used: Seq<bool>, done: Seq<Done>) -> Seq<bool>
    decreases done.len(),
{
    if done.len() == 0 {
        used
    } else if is_send(done.last()) {
        freed(used, done.drop_last()).update(sent_slot(done.last()), false)
    } else {
        freed(used, done.drop_last())
    }
}

/// The slots that are given out again: those of receives that brought nothing.
pub open spec fn reposts(done: Seq<Done>, buf: Seq<u8>, n: int) -> Seq<usize>
    decreases done.len(),
{
    if done.len() == 0 {
        Seq::empty()
    } else if !is_send(done.last()) && !brings_packet(done.last(), buf, n) {
        reposts(done.drop_last(), buf, n).push(done.last().context as usize)
    } else {
        reposts(done.drop_last(), buf, n)
    }
}

/// The receives that brought packets.
pub open spec fn arrivals(done: Seq<Done>, buf: Seq<u8>, n: int) -> Seq<Done>
    decreases done.len(),
{
    if done.len() == 0 {
        Seq::empty()
    } else if brings_packet(done.last(), buf, n) {
        arrivals(done.drop_last(), buf, n).push(done.last())
    } else {
        arrivals(done.drop_last(), buf, n)
    }
}

/// Whether a packet is what a receive brought.
pub open spec fn is_arrival(p: RioPacket, d: Done, buf: Seq<u8>, n: int) -> bool {
    p.slot == d.context && p.len == d.bytes && sock::reads_as(addr_region(buf, n, d.context as int), p.from)
}

/// Handles requests that are done: frees the slots of sends, and gives the
/// packets that came and the slots that are to be given out again. `buf` is the
/// buffer of the `n` slots for receiving.
pub fn drain(table: &mut SlotTable, done: &Vec<Done>, buf: &[u8], n: usize) -> (r: (Vec<RioPacket>, Vec<usize>))
    requires
        buf@.len() == n * SLOT_CAP + n * ADDR_CAP,
        n * SLOT_CAP + n * ADDR_CAP <= u32::MAX,
        forall|i: int| 0 <= i < done@.len() && !is_send(#[trigger] done@[i]) ==> done@[i].context < n,
        forall|i: int|
            0 <= i < done@.len() && is_send(#[trigger] done@[i]) ==> sent_slot(done@[i]) < old(table)@.len() && old(
                table,
            )@[sent_slot(done@[i])],
        forall|i: int, j: int|
            0 <= i < j < done@.len() && is_send(#[trigger] done@[i]) && is_send(#[trigger] done@[j]) ==> done@[i].context
                != done@[j].context,
    ensures
        final(table)@ == freed(old(table)@, done@),
        r.1@ == reposts(done@, buf@, n as int),
        r.0@.len() == arrivals(done@, buf@, n as int).len(),
        forall|k: int|
            0 <= k < r.0@.len() ==> is_arrival(#[trigger] r.0@[k], arrivals(done@, buf@, n as int)[k], buf@, n as int),
{
    let mut packets: Vec<RioPacket> = Vec::new();
    let mut again: Vec<usize> = Vec::new();
    let slots: usize = table.len();
    let mut i: usize = 0;
    while i < done.len()
        invariant
            i <= done.len(),
            buf@.len() == n * SLOT_CAP + n * ADDR_CAP,
            n * SLOT_CAP + n * ADDR_CAP <= u32::MAX,
            forall|j: int| 0 <= j < done@.len() && !is_send(#[trigger] done@[j]) ==> done@[j].context < n,
            forall|j: int|
                0 <= j < done@.len() && is_send(#[trigger] done@[j]) ==> sent_slot(done@[j]) < slots,
            forall|j: int|
                i <= j < done@.len() && is_send(#[trigger] done@[j]) ==> table@[sent_slot(done@[j])],
            forall|j: int, k: int|
                0 <= j < k < done@.len() && is_send(#[trigger] done@[j]) && is_send(#[trigger] done@[k])
                    ==> done@[j].context != done@[k].context,
            table@.len() == slots,
            old(table)@.len() == slots,
            table@ == freed(old(table)@, done@.subrange(0, i as int)),
            again@ == reposts(done@.subrange(0, i as int), buf@, n as int),
            packets@.len() == arrivals(done@.subrange(0, i as int), buf@, n as int).len(),
            forall|k: int|
                0 <= k < packets@.len() ==> is_arrival(
                    #[trigger] packets@[k],
                    arrivals(done@.subrange(0, i as int), buf@, n as int)[k],
                    buf@,
                    n as int,
                ),
        decreases done.len() - i,
    {
        let d = done[i];
        assert(done@.subrange(0, i + 1).drop_last() =~= done@.subrange(0, i as int));
        assert(done@.subrange(0, i + 1).last() == d);
        if d.context >= CTX_SEND_BIT {
            table.free((d.context - CTX_SEND_BIT) as usize);
        } else {
            let slot: usize = d.context as usize;
            proof {
                slots_are_apart(n as int, slot as int, slot as int);
            }
            let at: usize = n * SLOT_CAP + slot * ADDR_CAP;
            let region = vstd::slice::slice_subrange(buf, at, at + ADDR_CAP);
            match classify(d.context, d.status, d.bytes, region) {
                Completion::Packet(p) => {
                    packets.push(p);
                },
                _ => {
                    again.push(slot);
                },
            }
        }
        i = i + 1;
    }
    assert(done@.subrange(0, i as int) =~= done@);
    (packets, again)
}

/// A way to send and receive.
#[derive(Debug, Clone, Copy, PartialEq, Eq, Structural)]
pub enum IoWay {
    /// Ordinary sockets.
    Std,
    /// Registered buffers with so many slots.
    Rio { recv: usize, send: usize },
    /// Frames of the local network.
    L2,
}

/// The ways to send and receive in the order in which they are tried; the
/// first that works is used.
pub open spec fn ways(mode: RioMode) -> Seq<IoWay> {
    let full = IoWay::Rio { recv: FULL_RECV_SLOTS, send: FULL_SEND_SLOTS };
    let small = IoWay::Rio { recv: SMALL_RECV_SLOTS, send: SMALL_SEND_SLOTS };
    match mode {
        RioMode::Off => seq![IoWay::Std],
        RioMode::On => seq![full, small],
        RioMode::Auto => seq![full, small, IoWay::Std],
        RioMode::L2 => seq![IoWay::L2],
    }
}

/// The ways to send and receive in the order in which they are tried.
pub fn io_ways(mode: RioMode) -> (r: Vec<IoWay>)
    ensures
        r@ == ways(mode),
{
    let mut r: Vec<IoWay> = Vec::new();
    match mode {
        RioMode::L2 => {
            r.push(IoWay::L2);
        },
        RioMode::Off => {
            r.push(IoWay::Std);
        },
        _ => {
            r.push(IoWay::Rio { recv: FULL_RECV_SLOTS, send: FULL_SEND_SLOTS });
            r.push(IoWay::Rio { recv: SMALL_RECV_SLOTS, send: SMALL_SEND_SLOTS });
            if mode == RioMode::Auto {
                r.push(IoWay::Std);
            }
        },
    }
    assert(r@ =~= ways(mode));
    r
}

/// The buffer holds the data of all slots, 65507 bytes each, and then the addresses
/// of all slots, 32 bytes each.
pub proof fn slot_offsets(n: int, i: int)
    ensures
        data_offset(i) == i * 65507,
        addr_offset(n, i) == n * 65507 + i * 32,
{
}

/// What a completion means: with the high bit of its context set, that a slot was
/// sent; otherwise a packet, where it succeeded, brought something that fits and
/// has an address; and else nothing, so that the slot is posted again.
pub proof fn what_a_completion_means(ctx: u64, status: i32, bytes: u32, region: Seq<u8>, c: Completion)
    requires
        ctx % 0x8000_0000_0000_0000 <= usize::MAX,
        completed(ctx, status, bytes, region, c),
    ensures
        c is Sent <==> ctx >= 0x8000_0000_0000_0000,
        c matches Completion::Sent { slot } ==> slot + 0x8000_0000_0000_0000 == ctx,
        c matches Completion::Repost { slot } ==> slot == ctx,
        c matches Completion::Packet(p) ==> p.slot == ctx && p.len == bytes && status == 0 && 0 < bytes <= 65507,
        ctx < 0x8000_0000_0000_0000 && status == 0 && 0 < bytes <= 65507 && sock::is_v4_wire(region) ==> c is Packet,
        ctx < 0x8000_0000_0000_0000 && status == 0 && 0 < bytes <= 65507 && sock::is_v6_wire(region) ==> c is Packet,
{
}

/// The context of a send is its slot with the high bit set.
pub proof fn contexts_of_sends(slot: u64)
    requires
        slot < 0x8000_0000_0000_0000,
    ensures
        send_context(slot) == slot + 0x8000_0000_0000_0000,
{
}

/// What a batch of completions does, one after another: a send frees its slot, a
/// packet arrives, anything else is posted again.
pub proof fn completions_count_one_by_one(used: Seq<bool>, done: Seq<Done>, d: Done, buf: Seq<u8>, n: int)
    ensures
        ({
            let all = done.push(d);
            let sent = d.context >= 0x8000_0000_0000_0000;
            let region = buf.subrange(n * 65507 + d.context * 32, n * 65507 + d.context * 32 + 32);
            let good = d.status == 0 && 0 < d.bytes <= 65507 && (sock::is_v4_wire(region) || sock::is_v6_wire(region));
            &&& freed(used, all) == if sent {
                freed(used, done).update(d.context - 0x8000_0000_0000_0000, false)
            } else {
                freed(used, done)
            }
            &&& arrivals(all, buf, n) == if !sent && good {
                arrivals(done, buf, n).push(d)
            } else {
                arrivals(done, buf, n)
            }
            &&& reposts(all, buf, n) == if !sent && !good {
                reposts(done, buf, n).push(d.context as usize)
            } else {
                reposts(done, buf, n)
            }
        }),
        freed(used, Seq::empty()) == used,
        arrivals(Seq::empty(), buf, n).len() == 0,
        reposts(Seq::empty(), buf, n).len() == 0,
{
    assert(done.push(d).drop_last() =~= done);
}

/// The ways to send and receive, in the order in which they are tried.
pub proof fn ways_in_order(mode: RioMode)
    ensures
        mode == RioMode::Off ==> ways(mode) == seq![IoWay::Std],
        mode == RioMode::On ==> ways(mode) == seq![
            IoWay::Rio { recv: 256, send: 128 },
            IoWay::Rio { recv: 64, send: 32 },
        ],
        mode == RioMode::Auto ==> ways(mode) == seq![
            IoWay::Rio { recv: 256, send: 128 },
            IoWay::Rio { recv: 64, send: 32 },
            IoWay::Std,
        ],
        mode == RioMode::L2 ==> ways(mode) == seq![IoWay::L2],
{
}

} // verus!
