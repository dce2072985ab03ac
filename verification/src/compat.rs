//! What a tunnel does to IP packets to behave like a router: it counts hops,
//! reports errors to the sender and clamps the segment size of TCP.

use vstd::prelude::*;
use crate::wire;

pub mod checksum;
pub mod icmp;
pub mod ip;
pub mod laws;
pub mod mss;
pub mod router;
pub mod ttl;

verus! {

/// What becomes of a packet.
#[derive(Debug, PartialEq, Eq)]
pub enum Outcome {
    /// It goes on, with what was changed in it.
    Forward,
    /// It is dropped, and this packet is sent back.
    InjectIcmp(Vec<u8>),
    /// It is dropped.
    Drop,
}

/// What becomes of a packet, as a mathematical value.
pub ghost enum Verdict {
    Forward,
    Report(Seq<u8>),
    Drop,
}

impl View for Outcome {
    type V = Verdict;

    open spec fn view(&self) -> Verdict {
        match self {
            Outcome::Forward => Verdict::Forward,
            Outcome::InjectIcmp(v) => Verdict::Report(v@),
            Outcome::Drop => Verdict::Drop,
        }
    }
}

/// The verdict on a packet of which an error is reported, where that can be
/// done.
pub open spec fn reported(p: Option<Seq<u8>>) -> Verdict {
    match p {
        Some(v) => Verdict::Report(v),
        None => Verdict::Drop,
    }
}

/// The segment size to clamp to: the one asked for, or what the MTU leaves
/// next to the IP and TCP headers.
pub open spec fn mss_target(p: Seq<u8>, mtu: usize, asked: Option<u16>) -> u16 {
    match asked {
        Some(n) => n,
        None => {
            let headers = if ip::version(p) == 6 {
                60int
            } else {
                40
            };
            if mtu < headers {
                0
            } else {
                ((mtu - headers) % 0x1_0000) as u16
            }
        },
    }
}

/// A packet on its way out, and what becomes of it.
pub open spec fn outbound(p: Seq<u8>, mtu: usize, asked: Option<u16>, our4: Seq<u8>, our6: Option<Seq<u8>>) -> (
    Seq<u8>,
    Verdict,
) {
    let v = ip::version(p);
    let (q, left) = ttl::one_hop_less(p);
    if (v != 4 && v != 6) || ttl::to_many(p) {
        (p, Verdict::Forward)
    } else if !left {
        (
            q,
            reported(
                if v == 4 {
                    icmp::report_v4(q, our4, 11, 0, wire::zeros(4))
                } else {
                    match our6 {
                        Some(a) => icmp::report_v6(q, a, 3, 0, wire::zeros(4)),
                        None => None,
                    }
                },
            ),
        )
    } else if v == 4 && ip::dont_fragment(q) && q.len() > mtu {
        (q, reported(icmp::report_v4(q, our4, 3, 4, wire::zeros(2) + wire::be16(low16(mtu)))))
    } else if v == 6 && q.len() > mtu {
        (
            q,
            reported(
                match our6 {
                    Some(a) => icmp::report_v6(q, a, 2, 0, wire::be32(low32(mtu))),
                    None => None,
                },
            ),
        )
    } else {
        (mss::clamped(q, mss_target(p, mtu, asked)), Verdict::Forward)
    }
}

/// The lower 16 bits of a number.
pub open spec fn low16(n: usize) -> u16 {
    (n % 0x1_0000) as u16
}

/// The lower 32 bits of a number.
pub open spec fn low32(n: usize) -> u32 {
    (n as int % 0x1_0000_0000) as u32
}

/// The lower 16 bits of a number.
fn to_u16(n: usize) -> (r: u16)
    ensures
        r == low16(n),
{
    (n % 0x1_0000) as u16
}

/// The lower 32 bits of a number.
fn to_u32(n: usize) -> (r: u32)
    ensures
        r == low32(n),
{
    (n as u64 % 0x1_0000_0000) as u32
}

/// The segment size to clamp to.
fn target_mss(packet: &[u8], effective_mtu: usize, asked: Option<u16>) -> (r: u16)
    ensures
        r == mss_target(packet@, effective_mtu, asked),
{
    match asked {
        Some(n) => n,
        None => {
            let headers: usize = if ip::ip_version(packet) == 6 {
                60
            } else {
                40
            };
            to_u16(effective_mtu.saturating_sub(headers))
        },
    }
}

/// The outcome for a packet of which an error is reported.
fn report(p: Option<Vec<u8>>) -> (r: Outcome)
    ensures
        r@ == reported(
            match p {
                Some(v) => Some(v@),
                None => None,
            },
        ),
{
    match p {
        Some(v) => Outcome::InjectIcmp(v),
        None => Outcome::Drop,
    }
}

/// Handles a packet on its way into the tunnel. Multicast and broadcast pass
/// as they are. Of other IP packets one hop is counted; one whose hops are
/// used up or that exceeds the MTU and must not be fragmented is reported to
/// its sender, for IPv6 only where there is an address to report from; of the
/// rest the segment size is clamped.
pub fn process_outbound(
    packet: &mut [u8],
    effective_mtu: usize,
    mss_target: Option<u16>,
    our_addr_v4: [u8; 4],
    our_addr_v6: Option<[u8; 16]>,
) -> (r: Outcome)
    ensures
        outbound(
            old(packet)@,
            effective_mtu,
            mss_target,
            our_addr_v4@,
            match our_addr_v6 {
                Some(a) => Some(a@),
                None => None,
            },
        ) == (final(packet)@, r@),
{
    let ver: u8 = ip::ip_version(packet);
    if ver != 4 && ver != 6 {
        return Outcome::Forward;
    }
    if ttl::is_multicast_or_broadcast(packet) {
        return Outcome::Forward;
    }
    let target: u16 = target_mss(packet, effective_mtu, mss_target);
    if !ttl::decrement_ttl(packet) {
        let p = if ver == 4 {
            icmp::generate_time_exceeded_v4(packet, our_addr_v4)
        } else {
            match our_addr_v6 {
                Some(a) => icmp::generate_time_exceeded_v6(packet, a),
                None => None,
            }
        };
        return report(p);
    }
    if ver == 4 && ip::ipv4_df_set(packet) && packet.len() > effective_mtu {
        return report(icmp::generate_frag_needed_v4(packet, our_addr_v4, to_u16(effective_mtu)));
    }
    if ver == 6 && packet.len() > effective_mtu {
        let p = match our_addr_v6 {
            Some(a) => icmp::generate_packet_too_big_v6(packet, a, to_u32(effective_mtu)),
            None => None,
        };
        return report(p);
    }
    let _ = mss::clamp_mss(packet, target);
    Outcome::Forward
}

/// Handles a packet on its way out of the tunnel: clamps its segment size.
pub fn process_inbound(packet: &mut [u8], effective_mtu: usize, mss_target: Option<u16>)
    ensures
        final(packet)@ == mss::clamped(old(packet)@, self::mss_target(old(packet)@, effective_mtu, mss_target)),
{
    let target: u16 = target_mss(packet, effective_mtu, mss_target);
    let _ = mss::clamp_mss(packet, target);
}

} // verus!
