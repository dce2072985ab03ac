//! The Internet checksum of IP, TCP and ICMP.

use vstd::prelude::*;
use crate::wire;

verus! {

/// The `i`th 16-bit word of some bytes; an odd byte at the end is the upper
/// half of a word.
pub open spec fn word(data: Seq<u8>, i: int) -> nat {
    if 2 * i + 1 < data.len() {
        wire::be16_at(data, 2 * i) as nat
    } else {
        data[2 * i] as nat * 256
    }
}

/// The sum of the first `n` words.
pub open spec fn words(data: Seq<u8>, n: nat) -> nat
    decreases n,
{
    if n == 0 {
        0
    } else {
        words(data, (n - 1) as nat) + word(data, n - 1)
    }
}

/// The sum of all words.
pub open spec fn word_sum(data: Seq<u8>) -> nat {
    words(data, (data.len() + 1) / 2)
}

/// A sum in 16 bits, every carry added again at the lower end: zero for zero,
/// otherwise 1 to 65535 with the same remainder by 65535.
pub open spec fn folded(sum: nat) -> u16 {
    if sum == 0 {
        0
    } else {
        ((sum - 1) % 65535 + 1) as u16
    }
}

/// The checksum for a sum: its complement.
pub open spec fn complement(sum: nat) -> u16 {
    (65535 - folded(sum)) as u16
}

/// Bytes with a 16-bit integer written at an index.
pub open spec fn with16(p: Seq<u8>, at: int, v: u16) -> Seq<u8> {
    p.update(at, wire::be16(v)[0]).update(at + 1, wire::be16(v)[1])
}

/// Folding a part of a sum first changes nothing.
pub proof fn folded_add(a: nat, b: nat)
    ensures
        folded((folded(a) + b) as nat) == folded(a + b),
        folded(folded(a) as nat) == folded(a),
        folded((folded(a) + folded(b)) as nat) == folded(a + b),
{
    folded_step(a, b);
    folded_step(a, 0);
    folded_step(b, folded(a) as nat);
}

proof fn folded_step(a: nat, b: nat)
    ensures
        folded((folded(a) + b) as nat) == folded(a + b),
{
    if a > 0 {
        let x = a - 1;
        let r = x % 65535;
        assert((r + b) % 65535 == (x + b) % 65535) by {
            vstd::arithmetic::div_mod::lemma_add_mod_noop(x, b as int, 65535);
            vstd::arithmetic::div_mod::lemma_add_mod_noop(r, b as int, 65535);
        }
    }
}

/// One step of adding a word to a folded sum.
proof fn folded_word(a: nat, w: nat)
    requires
        w <= 65535,
    ensures
        folded(a + w) == (if folded(a) + w > 65535 {
            folded(a) + w - 65535
        } else {
            folded(a) + w
        }),
{
    folded_add(a, w);
    let t = folded(a) + w;
    if t > 65535 {
        assert((t - 1) % 65535 == t - 65536) by {
            vstd::arithmetic::div_mod::lemma_fundamental_div_mod_converse(t - 1, 65535, 1, t - 65536);
        }
    } else if t > 0 {
        vstd::arithmetic::div_mod::lemma_small_mod((t - 1) as nat, 65535);
    }
}

/// A sum with its checksum added is all ones.
pub proof fn complement_completes(sum: nat)
    ensures
        folded(sum + complement(sum) as nat) == 0xFFFF,
{
    let c = complement(sum);
    if sum == 0 {
        assert((65535 - 1) % 65535 == 65534);
    } else {
        let q = (sum - 1) / 65535;
        let r = (sum - 1) % 65535;
        vstd::arithmetic::div_mod::lemma_fundamental_div_mod(sum - 1, 65535);
        assert(sum + c - 1 == 65535 * q + 65534);
        vstd::arithmetic::div_mod::lemma_fundamental_div_mod_converse(sum + c - 1, 65535, q, 65534);
    }
}

/// Writing a word where there was zero adds it to the sum.
pub proof fn words_with16(data: Seq<u8>, i: int, v: u16, n: nat)
    requires
        0 <= i,
        2 * i + 1 < data.len(),
        n <= (data.len() + 1) / 2,
    ensures
        words(with16(data, 2 * i, v), n) == words(with16(data, 2 * i, 0), n) + if i < n {
            v as nat
        } else {
            0
        },
    decreases n,
{
    if n > 0 {
        words_with16(data, i, v, (n - 1) as nat);
        let a = with16(data, 2 * i, v);
        let b = with16(data, 2 * i, 0);
        if n - 1 == i {
            assert(a.subrange(2 * i, 2 * i + 2) =~= wire::be16(v));
            wire::be16_round_trip(v, a, 2 * i);
            assert(b.subrange(2 * i, 2 * i + 2) =~= wire::be16(0));
            wire::be16_round_trip(0, b, 2 * i);
        } else {
            assert(word(a, n - 1) == word(b, n - 1));
        }
    }
}

/// Bytes with the checksum of the others in the field for it sum up to all
/// ones.
pub proof fn checksum_is_consistent(data: Seq<u8>, i: int)
    requires
        0 <= i,
        2 * i + 1 < data.len(),
    ensures
        folded(
            word_sum(with16(data, 2 * i, complement(word_sum(with16(data, 2 * i, 0))))),
        ) == 0xFFFF,
{
    let zero = with16(data, 2 * i, 0);
    let c = complement(word_sum(zero));
    let n = (data.len() + 1) / 2;
    words_with16(data, i, c, n);
    complement_completes(word_sum(zero));
}

/// The same with other words summed up before.
pub proof fn checksum_is_consistent_with(base: nat, data: Seq<u8>, i: int)
    requires
        0 <= i,
        2 * i + 1 < data.len(),
    ensures
        folded(
            base + word_sum(with16(data, 2 * i, complement(base + word_sum(with16(data, 2 * i, 0))))),
        ) == 0xFFFF,
{
    let zero = with16(data, 2 * i, 0);
    let c = complement(base + word_sum(zero));
    let n = (data.len() + 1) / 2;
    words_with16(data, i, c, n);
    complement_completes(base + word_sum(zero));
}

/// The sum of all words in 16 bits.
pub fn ones_complement_sum(data: &[u8]) -> (r: u16)
    ensures
        r == folded(word_sum(data@)),
{
    let mut sum: u32 = 0;
    let mut i: usize = 0;
    let len: usize = data.len();
    while len - i >= 2
        invariant
            i <= len,
            i % 2 == 0,
            len == data@.len(),
            sum == folded(words(data@, i as nat / 2)),
        decreases len - i,
    {
        let w: u16 = wire::get_be16(data, i);
        let t: u32 = sum + w as u32;
        proof {
            let n = i as nat / 2;
            assert((i + 2) as nat / 2 == n + 1);
            assert(2 * n == i);
            folded_word(words(data@, n), w as nat);
        }
        sum = if t > 65535 {
            t - 65535
        } else {
            t
        };
        i = i + 2;
    }
    if i < len {
        let t: u32 = sum + data[i] as u32 * 256;
        proof {
            let n = i as nat / 2;
            assert(2 * n == i);
            assert((len + 1) as nat / 2 == n + 1);
            folded_word(words(data@, n), data@[i as int] as nat * 256);
        }
        sum = if t > 65535 {
            t - 65535
        } else {
            t
        };
    } else {
        assert((len + 1) as nat / 2 == i as nat / 2);
    }
    sum as u16
}

/// The checksum of some bytes.
pub fn checksum(data: &[u8]) -> (r: u16)
    ensures
        r == complement(word_sum(data@)),
{
    65535 - ones_complement_sum(data)
}

/// The checksum of two byte strings together, each padded to whole words.
fn checksum_of_two(a: &[u8], b: &[u8]) -> (r: u16)
    ensures
        r == complement(word_sum(a@) + word_sum(b@)),
{
    let x: u16 = ones_complement_sum(a);
    let y: u16 = ones_complement_sum(b);
    let t: u32 = x as u32 + y as u32;
    proof {
        folded_add(word_sum(a@), word_sum(b@));
        folded_word(word_sum(a@), y as nat);
        folded_add(word_sum(a@), y as nat);
    }
    let sum: u32 = if t > 65535 {
        t - 65535
    } else {
        t
    };
    65535 - sum as u16
}

/// The length that the first byte of an IPv4 header states.
pub open spec fn stated_ihl(header: Seq<u8>) -> nat {
    (header[0] % 16 * 4) as nat
}

/// Clears the checksum field of an IPv4 header and gives the checksum for it;
/// 0, with nothing changed, where the header is cut off.
pub fn ip_header_checksum(header: &mut [u8]) -> (r: u16)
    ensures
        if old(header)@.len() < 20 || old(header)@.len() < stated_ihl(old(header)@) {
            r == 0 && final(header)@ == old(header)@
        } else {
            &&& final(header)@ == with16(old(header)@, 10, 0)
            &&& r == complement(word_sum(final(header)@.subrange(0, stated_ihl(old(header)@) as int)))
        },
{
    if header.len() < 20 {
        return 0;
    }
    let ihl: usize = (header[0] % 16) as usize * 4;
    if header.len() < ihl {
        return 0;
    }
    header[10] = 0;
    header[11] = 0;
    assert(header@ =~= with16(old(header)@, 10, 0));
    checksum(vstd::slice::slice_subrange(header, 0, ihl))
}

/// The part of an IPv4 packet that a TCP checksum covers besides the segment:
/// source, destination, protocol, length.
pub open spec fn pseudo_v4(packet: Seq<u8>, len: nat) -> Seq<u8> {
    packet.subrange(12, 20) + seq![0u8, packet[9]] + wire::be16((len % 0x1_0000) as u16)
}

/// The part of an IPv6 packet that a checksum covers besides the segment:
/// source, destination, length, protocol.
pub open spec fn pseudo_v6(packet: Seq<u8>, len: nat, proto: u8) -> Seq<u8> {
    packet.subrange(8, 40) + wire::be32((len % 0x1_0000_0000) as u32) + seq![0u8, 0u8, 0u8, proto]
}

/// The bytes of a packet from an index on.
pub open spec fn tail(packet: Seq<u8>, off: int) -> Seq<u8> {
    packet.subrange(off, packet.len() as int)
}

/// The words of the pseudo header of a segment of an IPv6 packet.
pub open spec fn pseudo_sum_v6(packet: Seq<u8>, off: int, proto: u8) -> nat {
    word_sum(pseudo_v6(packet, (packet.len() - off) as nat, proto))
}

/// All words that the checksum of a segment of an IPv6 packet covers.
pub open spec fn covered_v6(packet: Seq<u8>, off: int, proto: u8) -> nat {
    pseudo_sum_v6(packet, off, proto) + word_sum(tail(packet, off))
}

/// All words that the checksum of a segment of an IPv4 packet covers.
pub open spec fn covered_v4(packet: Seq<u8>, off: int) -> nat {
    word_sum(pseudo_v4(packet, (packet.len() - off) as nat)) + word_sum(tail(packet, off))
}

/// The TCP checksum of an IPv4 packet.
pub open spec fn tcp_sum_v4(packet: Seq<u8>, off: int) -> u16 {
    complement(
        word_sum(pseudo_v4(packet, (packet.len() - off) as nat)) + word_sum(with16(tail(packet, off), 16, 0)),
    )
}

/// The checksum at index 16 of a segment of an IPv6 packet.
pub open spec fn l4_sum_v6(packet: Seq<u8>, off: int, proto: u8) -> u16 {
    complement(pseudo_sum_v6(packet, off, proto) + word_sum(with16(tail(packet, off), 16, 0)))
}

/// A copy of a segment with its checksum field at index 16 cleared.
fn cleared_segment(packet: &[u8], off: usize) -> (v: Vec<u8>)
    requires
        off + 20 <= packet.len(),
    ensures
        v@ == with16(tail(packet@, off as int), 16, 0),
{
    let mut v = wire::copy_range(packet, off, packet.len());
    v[16] = 0;
    v[17] = 0;
    assert(v@ =~= with16(tail(packet@, off as int), 16, 0));
    v
}

/// The TCP checksum of an IPv4 packet whose segment begins at `tcp_offset`; 0
/// where the segment is shorter than a TCP header.
pub fn tcp_checksum_v4(packet: &[u8], tcp_offset: usize) -> (r: u16)
    ensures
        r == if packet@.len() < tcp_offset + 20 {
            0
        } else {
            tcp_sum_v4(packet@, tcp_offset as int)
        },
{
    if packet.len() < 20 || packet.len() - 20 < tcp_offset {
        return 0;
    }
    let tcp_len: usize = packet.len() - tcp_offset;
    let mut pseudo = wire::copy_range(packet, 12, 20);
    pseudo.push(0);
    pseudo.push(packet[9]);
    wire::put_be16(&mut pseudo, (tcp_len % 0x1_0000) as u16);
    assert(pseudo@ =~= pseudo_v4(packet@, tcp_len as nat));
    let segment = cleared_segment(packet, tcp_offset);
    checksum_of_two(pseudo.as_slice(), segment.as_slice())
}

/// The TCP checksum of an IPv6 packet whose segment begins at `tcp_offset`,
/// after any extension headers; 0 where the packet is shorter than its header
/// or the segment shorter than a TCP header.
pub fn tcp_checksum_v6(packet: &[u8], tcp_offset: usize) -> (r: u16)
    ensures
        r == if packet@.len() < 40 || packet@.len() < tcp_offset + 20 {
            0
        } else {
            l4_sum_v6(packet@, tcp_offset as int, 6)
        },
{
    tcp_checksum_v6_with_proto(packet, tcp_offset, 6)
}

/// The same for the segment of any protocol with its checksum at index 16.
pub fn tcp_checksum_v6_with_proto(packet: &[u8], l4_offset: usize, next_header: u8) -> (r: u16)
    ensures
        r == if packet@.len() < 40 || packet@.len() < l4_offset + 20 {
            0
        } else {
            l4_sum_v6(packet@, l4_offset as int, next_header)
        },
{
    if packet.len() < 40 || packet.len() - 20 < l4_offset {
        return 0;
    }
    let l4_len: usize = packet.len() - l4_offset;
    let pseudo = pseudo_header_v6(packet, l4_len, next_header);
    let segment = cleared_segment(packet, l4_offset);
    checksum_of_two(pseudo.as_slice(), segment.as_slice())
}

/// What a checksum of an IPv6 packet covers besides the segment.
fn pseudo_header_v6(packet: &[u8], len: usize, proto: u8) -> (v: Vec<u8>)
    requires
        packet.len() >= 40,
    ensures
        v@ == pseudo_v6(packet@, len as nat, proto),
{
    let mut pseudo = wire::copy_range(packet, 8, 40);
    wire::put_be32(&mut pseudo, (len as u64 % 0x1_0000_0000) as u32);
    wire::put_zeros(&mut pseudo, 3);
    pseudo.push(proto);
    assert(pseudo@ =~= pseudo_v6(packet@, len as nat, proto));
    pseudo
}

/// Clears the checksum field of an ICMP message and gives the checksum for it;
/// 0, with nothing changed, where there is no such field.
pub fn icmp_checksum(icmp: &mut [u8]) -> (r: u16)
    ensures
        if old(icmp)@.len() < 4 {
            r == 0 && final(icmp)@ == old(icmp)@
        } else {
            &&& final(icmp)@ == with16(old(icmp)@, 2, 0)
            &&& r == complement(word_sum(final(icmp)@))
        },
{
    if icmp.len() < 4 {
        return 0;
    }
    icmp[2] = 0;
    icmp[3] = 0;
    assert(icmp@ =~= with16(old(icmp)@, 2, 0));
    checksum(icmp)
}

/// The ICMPv6 checksum of an IPv6 packet without extension headers.
pub open spec fn control_sum_v6(packet: Seq<u8>) -> u16 {
    complement(pseudo_sum_v6(packet, 40, 58) + word_sum(tail(with16(packet, 42, 0), 40)))
}

/// Clears the checksum field of the ICMPv6 message of an IPv6 packet and gives
/// the checksum for it; 0, with nothing changed, where there is no such field.
pub fn icmpv6_checksum(pkt: &mut [u8]) -> (r: u16)
    ensures
        if old(pkt)@.len() < 44 {
            r == 0 && final(pkt)@ == old(pkt)@
        } else {
            final(pkt)@ == with16(old(pkt)@, 42, 0) && r == control_sum_v6(old(pkt)@)
        },
{
    if pkt.len() < 44 {
        return 0;
    }
    let len: usize = pkt.len() - 40;
    let pseudo = pseudo_header_v6(pkt, len, 58);
    pkt[42] = 0;
    pkt[43] = 0;
    assert(pkt@ =~= with16(old(pkt)@, 42, 0));
    checksum_of_two(pseudo.as_slice(), vstd::slice::slice_subrange(pkt, 40, pkt.len()))
}

/// A sum in 16 bits is the sum up to a multiple of 65535, and zero of zero alone;
/// its complement is what lacks to 65535.
pub proof fn sum_in_16_bits(sum: nat)
    ensures
        folded(sum) as int % 65535 == sum as int % 65535,
        folded(sum) == 0 <==> sum == 0,
        complement(sum) + folded(sum) == 65535,
{
    if sum > 0 {
        let x = sum - 1;
        vstd::arithmetic::div_mod::lemma_fundamental_div_mod(x as int, 65535);
        vstd::arithmetic::div_mod::lemma_mod_adds(x as int % 65535, 1, 65535);
        let q = x as int / 65535;
        let r = x as int % 65535;
        assert(sum == 65535 * q + (r + 1));
        vstd::arithmetic::div_mod::lemma_mod_multiples_vanish(q, r + 1, 65535);
    }
}

/// The words of data: two bytes each, the high one first; a last byte alone is the
/// high one. They are summed up one after another.
pub proof fn words_of_data(data: Seq<u8>, n: nat)
    requires
        2 * n < data.len(),
    ensures
        2 * n + 1 < data.len() ==> words(data, n + 1) == words(data, n) + data[2 * n as int] * 256 + data[2 * n as int + 1],
        2 * n + 1 == data.len() ==> words(data, n + 1) == words(data, n) + data[2 * n as int] * 256,
        words(data, 0) == 0,
        word_sum(data) == words(data, (data.len() + 1) / 2),
{
}

/// What is summed up before a segment of IPv4: both addresses, a byte of zero, the
/// protocol, and the length of the segment.
pub proof fn pseudo_header_of_v4(packet: Seq<u8>, len: nat)
    requires
        packet.len() >= 20,
        len < 0x1_0000,
    ensures
        ({
            let h = pseudo_v4(packet, len);
            &&& h.len() == 12
            &&& h.subrange(0, 8) == packet.subrange(12, 20)
            &&& h[8] == 0
            &&& h[9] == packet[9]
            &&& h[10] * 256 + h[11] == len
        }),
{
    let h = pseudo_v4(packet, len);
    assert(h.subrange(0, 8) =~= packet.subrange(12, 20));
}

/// What is summed up before a segment of IPv6: both addresses, the length of the
/// segment in four bytes, three bytes of zero, and the protocol.
pub proof fn pseudo_header_of_v6(packet: Seq<u8>, len: nat, proto: u8)
    requires
        packet.len() >= 40,
        len < 0x1_0000,
    ensures
        ({
            let h = pseudo_v6(packet, len, proto);
            &&& h.len() == 40
            &&& h.subrange(0, 32) == packet.subrange(8, 40)
            &&& h[32] == 0 && h[33] == 0
            &&& h[34] * 256 + h[35] == len
            &&& h[36] == 0 && h[37] == 0 && h[38] == 0
            &&& h[39] == proto
        }),
{
    let h = pseudo_v6(packet, len, proto);
    assert(h.subrange(0, 32) =~= packet.subrange(8, 40));
}

/// Writing a word changes two bytes, the high one first.
pub proof fn word_is_written(p: Seq<u8>, at: int, v: u16)
    requires
        0 <= at,
        at + 1 < p.len(),
    ensures
        with16(p, at, v).len() == p.len(),
        with16(p, at, v)[at] * 256 + with16(p, at, v)[at + 1] == v,
        forall|i: int| 0 <= i < p.len() && i != at && i != at + 1 ==> with16(p, at, v)[i] == p[i],
{
}

} // verus!
