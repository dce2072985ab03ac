//! The node's arguments.

use vstd::prelude::*;
use crate::cli;
use crate::codec::header;
use crate::codec::header::{AddrParseError, IPv8Address};
use crate::node::sock::SockAddr;
use crate::node::ticker::IpAddr;
use crate::text;

verus! {

/// The port of the hook by default.
pub const HOOK_PORT: u16 = 45_810;

/// The cipher of a tunnel.
#[derive(Debug, Clone, Copy, PartialEq, Eq, Structural)]
pub enum CipherSuite {
    ChaCha20Poly1305,
    Aes256Gcm,
}

/// Whether registered buffers are used.
#[derive(Debug, Clone, Copy, PartialEq, Eq, Structural)]
pub enum RioMode {
    On,
    Auto,
    Off,
    /// Frames of the local network in their place.
    L2,
}

/// What was read from the values of arguments that are addresses of the
/// network; each counts only where its argument has a value.
pub struct Addresses {
    /// Of `--peer-ip`.
    pub peer_ip: Result<IpAddr, String>,
    /// Of `--tun-ip`.
    pub tun_ip: Result<[u8; 4], String>,
    /// Of `--alt-ip`.
    pub alt_ip: Result<IpAddr, String>,
    /// Of `--hook`.
    pub hook: Result<SockAddr, String>,
}

/// Why arguments are refused.
#[derive(Debug, Clone, PartialEq, Eq)]
pub enum ArgError {
    /// An argument without which nothing goes has no value.
    Missing(&'static str),
    /// The value is no IPv8+ address.
    BadAddress(&'static str, AddrParseError),
    /// The value is no address of the network; the text says why.
    BadIp(&'static str, String),
    /// The value is no number, or one that is too great.
    NotNumber(&'static str),
    MtuRange,
    /// One of the two arguments for another entry is missing.
    AltPair,
    /// There is no driver library.
    NoDll,
    /// The value is no key.
    BadSeed(&'static str),
    ShardsRange(usize),
    PunchResolver,
    PunchSeed,
    CacheZone,
    AuthSeed,
    AuthTrust,
    /// The hook is not of this host.
    HookLoopback,
    HookPolicy(String),
    Cipher(String),
    Rio(String),
    MpAlt,
    MpFallback,
    FecK(usize),
}

/// Why arguments are refused, as a mathematical value.
pub ghost enum ArgFault {
    Missing(Seq<char>),
    BadAddress(Seq<char>, AddrParseError),
    BadIp(Seq<char>, Seq<char>),
    NotNumber(Seq<char>),
    MtuRange,
    AltPair,
    NoDll,
    BadSeed(Seq<char>),
    ShardsRange(usize),
    PunchResolver,
    PunchSeed,
    CacheZone,
    AuthSeed,
    AuthTrust,
    HookLoopback,
    HookPolicy(Seq<char>),
    Cipher(Seq<char>),
    Rio(Seq<char>),
    MpAlt,
    MpFallback,
    FecK(usize),
}

impl View for ArgError {
    type V = ArgFault;

    open spec fn view(&self) -> ArgFault {
        match self {
            ArgError::Missing(f) => ArgFault::Missing(f@),
            ArgError::BadAddress(f, e) => ArgFault::BadAddress(f@, *e),
            ArgError::BadIp(f, w) => ArgFault::BadIp(f@, w@),
            ArgError::NotNumber(f) => ArgFault::NotNumber(f@),
            ArgError::MtuRange => ArgFault::MtuRange,
            ArgError::AltPair => ArgFault::AltPair,
            ArgError::NoDll => ArgFault::NoDll,
            ArgError::BadSeed(f) => ArgFault::BadSeed(f@),
            ArgError::ShardsRange(n) => ArgFault::ShardsRange(*n),
            ArgError::PunchResolver => ArgFault::PunchResolver,
            ArgError::PunchSeed => ArgFault::PunchSeed,
            ArgError::CacheZone => ArgFault::CacheZone,
            ArgError::AuthSeed => ArgFault::AuthSeed,
            ArgError::AuthTrust => ArgFault::AuthTrust,
            ArgError::HookLoopback => ArgFault::HookLoopback,
            ArgError::HookPolicy(s) => ArgFault::HookPolicy(s@),
            ArgError::Cipher(s) => ArgFault::Cipher(s@),
            ArgError::Rio(s) => ArgFault::Rio(s@),
            ArgError::MpAlt => ArgFault::MpAlt,
            ArgError::MpFallback => ArgFault::MpFallback,
            ArgError::FecK(n) => ArgFault::FecK(*n),
        }
    }
}

/// Who the node is, whom it talks to, and by which addresses.
#[derive(Debug, Clone, PartialEq, Eq)]
pub struct Net {
    pub self_addr: IPv8Address,
    pub peer_addr: IPv8Address,
    pub peer_ip: IpAddr,
    /// Bytes of a packet made up without a network card.
    pub nt_size: usize,
    pub tun_ip: [u8; 4],
    pub netmask: [u8; 4],
    pub udp_port: u16,
    pub peer_port: u16,
    pub adapter_name: String,
    /// The first byte of the addresses behind the tunnel.
    pub tun_prefix: u8,
    /// The longest IPv8+ packet.
    pub mtu: usize,
    /// The longest packet of the network card.
    pub tun_mtu: usize,
    /// Another entry.
    pub alt: Option<(IpAddr, u16)>,
    /// The driver library.
    pub dll_path: String,
}

/// The same as a mathematical value.
pub ghost struct NetView {
    pub self_addr: IPv8Address,
    pub peer_addr: IPv8Address,
    pub peer_ip: IpAddr,
    pub nt_size: usize,
    pub tun_ip: Seq<u8>,
    pub netmask: Seq<u8>,
    pub udp_port: u16,
    pub peer_port: u16,
    pub adapter_name: Seq<char>,
    pub tun_prefix: u8,
    pub mtu: usize,
    pub tun_mtu: usize,
    pub alt: Option<(IpAddr, u16)>,
    pub dll_path: Seq<char>,
}

impl View for Net {
    type V = NetView;

    open spec fn view(&self) -> NetView {
        NetView {
            self_addr: self.self_addr,
            peer_addr: self.peer_addr,
            peer_ip: self.peer_ip,
            nt_size: self.nt_size,
            tun_ip: self.tun_ip@,
            netmask: self.netmask@,
            udp_port: self.udp_port,
            peer_port: self.peer_port,
            adapter_name: self.adapter_name@,
            tun_prefix: self.tun_prefix,
            mtu: self.mtu,
            tun_mtu: self.tun_mtu,
            alt: self.alt,
            dll_path: self.dll_path@,
        }
    }
}

/// The keys of the node and the services that it asks.
#[derive(Debug, Clone, PartialEq, Eq)]
pub struct Trust {
    pub auth: bool,
    pub ca_seed: Option<[u8; 32]>,
    pub ed_seed: Option<[u8; 32]>,
    pub zone: Option<String>,
    pub cert_cache: Option<String>,
    pub resolver: Option<String>,
    pub punch: bool,
    pub shards: usize,
}

/// The same as a mathematical value.
pub ghost struct TrustView {
    pub auth: bool,
    pub ca_seed: Option<Seq<u8>>,
    pub ed_seed: Option<Seq<u8>>,
    pub zone: Option<Seq<char>>,
    pub cert_cache: Option<Seq<char>>,
    pub resolver: Option<Seq<char>>,
    pub punch: bool,
    pub shards: usize,
}

/// A key that may be missing, as a mathematical value.
pub open spec fn key_view(k: Option<[u8; 32]>) -> Option<Seq<u8>> {
    match k {
        Some(a) => Some(a@),
        None => None,
    }
}

/// A text that may be missing, as a mathematical value.
pub open spec fn text_view(s: Option<String>) -> Option<Seq<char>> {
    match s {
        Some(t) => Some(t@),
        None => None,
    }
}

impl View for Trust {
    type V = TrustView;

    open spec fn view(&self) -> TrustView {
        TrustView {
            auth: self.auth,
            ca_seed: key_view(self.ca_seed),
            ed_seed: key_view(self.ed_seed),
            zone: text_view(self.zone),
            cert_cache: text_view(self.cert_cache),
            resolver: text_view(self.resolver),
            punch: self.punch,
            shards: self.shards,
        }
    }
}

/// What is done with packets on their way.
#[derive(Debug, Clone, Copy, PartialEq, Eq)]
pub struct Tuning {
    /// Where a program listens that is asked about each packet.
    pub hook: Option<SockAddr>,
    pub hook_timeout_ms: u64,
    /// Whether packets of which nothing is said are dropped.
    pub hook_default_drop: bool,
    /// Bytes of a packet that are shown.
    pub hook_payload: usize,
    pub cipher: CipherSuite,
    pub rio_mode: RioMode,
    pub mss_clamp: Option<u16>,
    /// Data frames for one recovery frame.
    pub fec_k: usize,
    pub mp: bool,
    pub fallback: bool,
}

/// What the node was told to do.
#[derive(Debug, Clone, PartialEq, Eq)]
pub struct Config {
    pub net: Net,
    pub trust: Trust,
    pub tuning: Tuning,
    pub learn_peer: bool,
    pub no_tun: bool,
    pub initiate: bool,
    pub compat: bool,
    pub migrate: bool,
    pub fec: bool,
    pub l2: bool,
}

/// The number that an argument gives, or else a default.
pub open spec fn number_arg(argv: Seq<Seq<char>>, flag: Seq<char>, default: u64, max: u64) -> Result<u64, ArgFault> {
    match cli::value_of(argv, flag) {
        None => Ok(default),
        Some(t) => match text::number_of(t, max as nat) {
            Some(n) => Ok(n as u64),
            None => Err(ArgFault::NotNumber(flag)),
        },
    }
}

/// The number that an argument gives, or else a default.
pub fn number(argv: &Vec<String>, flag: &'static str, default: u64, max: u64) -> (r: Result<u64, ArgError>)
    requires
        default <= max,
    ensures
        match r {
            Ok(n) => n <= max && number_arg(text::texts(argv@), flag@, default, max) == Ok::<u64, ArgFault>(n),
            Err(e) => number_arg(text::texts(argv@), flag@, default, max) == Err::<u64, ArgFault>(e@),
        },
{
    match cli::arg_value(argv, flag) {
        None => Ok(default),
        Some(t) => match text::parse_number(t.as_str(), max) {
            Some(n) => Ok(n),
            None => Err(ArgError::NotNumber(flag)),
        },
    }
}

/// The address that an argument gives.
pub open spec fn address_arg(argv: Seq<Seq<char>>, flag: Seq<char>) -> Result<IPv8Address, ArgFault> {
    match cli::value_of(argv, flag) {
        None => Err(ArgFault::Missing(flag)),
        Some(t) => match header::address_of_text(t) {
            Ok(a) => Ok(a),
            Err(e) => Err(ArgFault::BadAddress(flag, e)),
        },
    }
}

/// The address that an argument gives.
fn address(argv: &Vec<String>, flag: &'static str) -> (r: Result<IPv8Address, ArgError>)
    ensures
        match r {
            Ok(a) => address_arg(text::texts(argv@), flag@) == Ok::<IPv8Address, ArgFault>(a),
            Err(e) => address_arg(text::texts(argv@), flag@) == Err::<IPv8Address, ArgFault>(e@),
        },
{
    match cli::arg_value(argv, flag) {
        None => Err(ArgError::Missing(flag)),
        Some(t) => match IPv8Address::from_canonical_str(t.as_str()) {
            Ok(a) => Ok(a),
            Err(e) => Err(ArgError::BadAddress(flag, e)),
        },
    }
}

/// The key that an argument gives, if it has a value.
pub open spec fn seed_arg(argv: Seq<Seq<char>>, flag: Seq<char>) -> Result<Option<Seq<u8>>, ArgFault> {
    match cli::value_of(argv, flag) {
        None => Ok(None),
        Some(t) => if cli::is_key_text(t) {
            Ok(Some(text::hex_bytes(t)))
        } else {
            Err(ArgFault::BadSeed(flag))
        },
    }
}

/// The key that an argument gives, if it has a value.
pub fn seed(argv: &Vec<String>, flag: &'static str) -> (r: Result<Option<[u8; 32]>, ArgError>)
    ensures
        match r {
            Ok(k) => seed_arg(text::texts(argv@), flag@) == Ok::<Option<Seq<u8>>, ArgFault>(key_view(k)),
            Err(e) => seed_arg(text::texts(argv@), flag@) == Err::<Option<Seq<u8>>, ArgFault>(e@),
        },
{
    match cli::arg_value(argv, flag) {
        None => Ok(None),
        Some(t) => match cli::parse_seed(t.as_str()) {
            Some(k) => Ok(Some(k)),
            None => Err(ArgError::BadSeed(flag)),
        },
    }
}

/// What was read from an address of the network.
pub open spec fn read_ip<T>(flag: Seq<char>, r: Result<T, String>) -> Result<T, ArgFault> {
    match r {
        Ok(a) => Ok(a),
        Err(w) => Err(ArgFault::BadIp(flag, w@)),
    }
}

/// The host of the peer.
pub open spec fn peer_ip_arg(argv: Seq<Seq<char>>, ips: Addresses) -> Result<IpAddr, ArgFault> {
    if cli::value_of(argv, "--peer-ip"@) is None {
        Err(ArgFault::Missing("--peer-ip"@))
    } else {
        read_ip("--peer-ip"@, ips.peer_ip)
    }
}

/// The node's address behind the tunnel.
pub open spec fn tun_ip_arg(argv: Seq<Seq<char>>, ips: Addresses) -> Result<Seq<u8>, ArgFault> {
    if cli::value_of(argv, "--tun-ip"@) is None {
        Ok(seq![100u8, 64u8, 0u8, 1u8])
    } else {
        match ips.tun_ip {
            Ok(a) => Ok(a@),
            Err(w) => Err(ArgFault::BadIp("--tun-ip"@, w@)),
        }
    }
}

/// The longest packet.
pub open spec fn mtu_arg(argv: Seq<Seq<char>>) -> Result<u64, ArgFault> {
    match number_arg(argv, "--mtu"@, 1432, usize::MAX as u64) {
        Ok(n) => if 1280 <= n <= 65535 {
            Ok(n)
        } else {
            Err(ArgFault::MtuRange)
        },
        Err(e) => Err(e),
    }
}

/// Another entry.
pub open spec fn alt_arg(argv: Seq<Seq<char>>, ips: Addresses) -> Result<Option<(IpAddr, u16)>, ArgFault> {
    match (cli::value_of(argv, "--alt-ip"@), cli::value_of(argv, "--alt-port"@)) {
        (None, None) => Ok(None),
        (Some(_), Some(p)) => match read_ip("--alt-ip"@, ips.alt_ip) {
            Ok(a) => match text::number_of(p, 65535) {
                Some(n) => Ok(Some((a, n as u16))),
                None => Err(ArgFault::NotNumber("--alt-port"@)),
            },
            Err(e) => Err(e),
        },
        _ => Err(ArgFault::AltPair),
    }
}

/// The driver library: the one that is named, the one beside the program, or,
/// without a network card, none.
pub open spec fn dll_arg(argv: Seq<Seq<char>>, beside: Option<Seq<char>>) -> Result<Seq<char>, ArgFault> {
    match cli::value_of(argv, "--dll"@) {
        Some(p) => Ok(p),
        None => match beside {
            Some(p) => Ok(p),
            None => if cli::has(argv, "--no-tun"@) {
                Ok("(unused-no-tun)"@)
            } else {
                Err(ArgFault::NoDll)
            },
        },
    }
}

/// The mask of the addresses behind the tunnel.
pub open spec fn netmask_of(tun_prefix: u8) -> Seq<u8> {
    if tun_prefix == 100 {
        seq![255u8, 192u8, 0u8, 0u8]
    } else {
        seq![255u8, 255u8, 255u8, 0u8]
    }
}

/// The port of the tunnel, and that of the peer.
pub open spec fn ports_arg(argv: Seq<Seq<char>>) -> Result<(u64, u64), ArgFault> {
    match number_arg(argv, "--udp-port"@, 45_700, 65535) {
        Err(e) => Err(e),
        Ok(p) => match number_arg(argv, "--peer-port"@, p, 65535) {
            Err(e) => Err(e),
            Ok(q) => Ok((p, q)),
        },
    }
}

/// The longest packets.
pub open spec fn mtus_arg(argv: Seq<Seq<char>>) -> Result<(u64, u64), ArgFault> {
    match mtu_arg(argv) {
        Err(e) => Err(e),
        Ok(m) => match number_arg(argv, "--tun-mtu"@, m, usize::MAX as u64) {
            Err(e) => Err(e),
            Ok(t) => Ok((m, t)),
        },
    }
}

/// The node and its peer.
pub open spec fn ends_arg(argv: Seq<Seq<char>>, ips: Addresses) -> Result<(IPv8Address, IPv8Address, IpAddr), ArgFault> {
    match address_arg(argv, "--self"@) {
        Err(e) => Err(e),
        Ok(s) => match address_arg(argv, "--peer-addr"@) {
            Err(e) => Err(e),
            Ok(p) => match peer_ip_arg(argv, ips) {
                Err(e) => Err(e),
                Ok(i) => Ok((s, p, i)),
            },
        },
    }
}

/// The size of packets that are made up, the node's address behind the tunnel
/// and its ports.
pub open spec fn local_arg(argv: Seq<Seq<char>>, ips: Addresses) -> Result<(u64, Seq<u8>, (u64, u64)), ArgFault> {
    match number_arg(argv, "--nt-size"@, 64, usize::MAX as u64) {
        Err(e) => Err(e),
        Ok(n) => match tun_ip_arg(argv, ips) {
            Err(e) => Err(e),
            Ok(t) => match ports_arg(argv) {
                Err(e) => Err(e),
                Ok(p) => Ok((n, t, p)),
            },
        },
    }
}

/// The first byte of the addresses behind the tunnel and the longest packets.
pub open spec fn sizes_arg(argv: Seq<Seq<char>>) -> Result<(u64, (u64, u64)), ArgFault> {
    match number_arg(argv, "--tun-prefix"@, 100, 255) {
        Err(e) => Err(e),
        Ok(x) => match mtus_arg(argv) {
            Err(e) => Err(e),
            Ok(m) => Ok((x, m)),
        },
    }
}

/// Another entry, and the driver library.
pub open spec fn ways_arg(argv: Seq<Seq<char>>, ips: Addresses, beside: Option<Seq<char>>) -> Result<
    (Option<(IpAddr, u16)>, Seq<char>),
    ArgFault,
> {
    match alt_arg(argv, ips) {
        Err(e) => Err(e),
        Ok(a) => match dll_arg(argv, beside) {
            Err(e) => Err(e),
            Ok(d) => Ok((a, d)),
        },
    }
}

/// The name of the network card.
pub open spec fn adapter_arg(argv: Seq<Seq<char>>) -> Seq<char> {
    match cli::value_of(argv, "--adapter-name"@) {
        Some(n) => n,
        None => "IPv8Plus"@,
    }
}

/// The addresses in a command line, or the first thing wrong with them.
pub open spec fn net_arg(argv: Seq<Seq<char>>, ips: Addresses, beside: Option<Seq<char>>) -> Result<NetView, ArgFault> {
    match ends_arg(argv, ips) {
        Err(e) => Err(e),
        Ok((self_addr, peer_addr, peer_ip)) => match local_arg(argv, ips) {
            Err(e) => Err(e),
            Ok((nt_size, tun_ip, (udp_port, peer_port))) => match sizes_arg(argv) {
                Err(e) => Err(e),
                Ok((tun_prefix, (mtu, tun_mtu))) => match ways_arg(argv, ips, beside) {
                    Err(e) => Err(e),
                    Ok((alt, dll_path)) => Ok(
                        NetView {
                            self_addr,
                            peer_addr,
                            peer_ip,
                            nt_size: nt_size as usize,
                            tun_ip,
                            netmask: netmask_of(tun_prefix as u8),
                            udp_port: udp_port as u16,
                            peer_port: peer_port as u16,
                            adapter_name: adapter_arg(argv),
                            tun_prefix: tun_prefix as u8,
                            mtu: mtu as usize,
                            tun_mtu: tun_mtu as usize,
                            alt,
                            dll_path,
                        },
                    ),
                },
            },
        },
    }
}

/// The node and its peer.
fn parse_ends(argv: &Vec<String>, ips: &Addresses) -> (r: Result<(IPv8Address, IPv8Address, IpAddr), ArgError>)
    ensures
        match r {
            Ok(v) => ends_arg(text::texts(argv@), *ips) == Ok::<(IPv8Address, IPv8Address, IpAddr), ArgFault>(v),
            Err(e) => ends_arg(text::texts(argv@), *ips) == Err::<(IPv8Address, IPv8Address, IpAddr), ArgFault>(e@),
        },
{
    let s = match address(argv, "--self") {
        Ok(a) => a,
        Err(e) => {
            return Err(e);
        },
    };
    let p = match address(argv, "--peer-addr") {
        Ok(a) => a,
        Err(e) => {
            return Err(e);
        },
    };
    if cli::arg_value(argv, "--peer-ip").is_none() {
        return Err(ArgError::Missing("--peer-ip"));
    }
    match &ips.peer_ip {
        Ok(i) => Ok((s, p, *i)),
        Err(w) => Err(ArgError::BadIp("--peer-ip", w.clone())),
    }
}

/// The ports of the tunnel and of the peer.
fn parse_ports(argv: &Vec<String>) -> (r: Result<(u16, u16), ArgError>)
    ensures
        match r {
            Ok((p, q)) => ports_arg(text::texts(argv@)) == Ok::<(u64, u64), ArgFault>((p as u64, q as u64)),
            Err(e) => ports_arg(text::texts(argv@)) == Err::<(u64, u64), ArgFault>(e@),
        },
{
    let p: u64 = match number(argv, "--udp-port", 45_700, 65535) {
        Ok(n) => n,
        Err(e) => {
            return Err(e);
        },
    };
    match number(argv, "--peer-port", p, 65535) {
        Ok(q) => Ok((p as u16, q as u16)),
        Err(e) => Err(e),
    }
}

/// The size of packets that are made up, the node's address behind the tunnel
/// and its ports.
fn parse_local(argv: &Vec<String>, ips: &Addresses) -> (r: Result<(usize, [u8; 4], (u16, u16)), ArgError>)
    ensures
        match r {
            Ok((n, t, (p, q))) => local_arg(text::texts(argv@), *ips) == Ok::<(u64, Seq<u8>, (u64, u64)), ArgFault>(
                (n as u64, t@, (p as u64, q as u64)),
            ),
            Err(e) => local_arg(text::texts(argv@), *ips) == Err::<(u64, Seq<u8>, (u64, u64)), ArgFault>(e@),
        },
{
    let n: u64 = match number(argv, "--nt-size", 64, usize::MAX as u64) {
        Ok(n) => n,
        Err(e) => {
            return Err(e);
        },
    };
    let tun_ip: [u8; 4] = if cli::arg_value(argv, "--tun-ip").is_none() {
        let a: [u8; 4] = [100, 64, 0, 1];
        assert(a@ =~= seq![100u8, 64u8, 0u8, 1u8]);
        a
    } else {
        match &ips.tun_ip {
            Ok(a) => *a,
            Err(w) => {
                return Err(ArgError::BadIp("--tun-ip", w.clone()));
            },
        }
    };
    match parse_ports(argv) {
        Ok(p) => Ok((n as usize, tun_ip, p)),
        Err(e) => Err(e),
    }
}

/// The first byte of the addresses behind the tunnel and the longest packets.
fn parse_sizes(argv: &Vec<String>) -> (r: Result<(u8, (usize, usize)), ArgError>)
    ensures
        match r {
            Ok((x, (m, t))) => 1280 <= m <= 65535 && sizes_arg(text::texts(argv@)) == Ok::<
                (u64, (u64, u64)),
                ArgFault,
            >((x as u64, (m as u64, t as u64))),
            Err(e) => sizes_arg(text::texts(argv@)) == Err::<(u64, (u64, u64)), ArgFault>(e@),
        },
{
    let x: u64 = match number(argv, "--tun-prefix", 100, 255) {
        Ok(n) => n,
        Err(e) => {
            return Err(e);
        },
    };
    let m: u64 = match number(argv, "--mtu", 1432, usize::MAX as u64) {
        Ok(n) => n,
        Err(e) => {
            return Err(e);
        },
    };
    if m < 1280 || m > 65535 {
        return Err(ArgError::MtuRange);
    }
    match number(argv, "--tun-mtu", m, usize::MAX as u64) {
        Ok(t) => Ok((x as u8, (m as usize, t as usize))),
        Err(e) => Err(e),
    }
}

/// Another entry.
fn parse_alt(argv: &Vec<String>, ips: &Addresses) -> (r: Result<Option<(IpAddr, u16)>, ArgError>)
    ensures
        match r {
            Ok(a) => alt_arg(text::texts(argv@), *ips) == Ok::<Option<(IpAddr, u16)>, ArgFault>(a),
            Err(e) => alt_arg(text::texts(argv@), *ips) == Err::<Option<(IpAddr, u16)>, ArgFault>(e@),
        },
{
    match (cli::arg_value(argv, "--alt-ip"), cli::arg_value(argv, "--alt-port")) {
        (None, None) => Ok(None),
        (Some(_), Some(p)) => match &ips.alt_ip {
            Ok(a) => match text::parse_number(p.as_str(), 65535) {
                Some(n) => Ok(Some((*a, n as u16))),
                None => Err(ArgError::NotNumber("--alt-port")),
            },
            Err(w) => Err(ArgError::BadIp("--alt-ip", w.clone())),
        },
        _ => Err(ArgError::AltPair),
    }
}

/// The driver library.
fn parse_dll(argv: &Vec<String>, beside: &Option<String>) -> (r: Result<String, ArgError>)
    ensures
        match r {
            Ok(p) => dll_arg(text::texts(argv@), text_view(*beside)) == Ok::<Seq<char>, ArgFault>(p@),
            Err(e) => dll_arg(text::texts(argv@), text_view(*beside)) == Err::<Seq<char>, ArgFault>(e@),
        },
{
    match cli::arg_value(argv, "--dll") {
        Some(p) => Ok(p),
        None => match beside {
            Some(p) => Ok(p.clone()),
            None => if cli::has_flag(argv, "--no-tun") {
                Ok("(unused-no-tun)".to_owned())
            } else {
                Err(ArgError::NoDll)
            },
        },
    }
}

/// The mask of the addresses behind the tunnel.
fn netmask(tun_prefix: u8) -> (m: [u8; 4])
    ensures
        m@ == netmask_of(tun_prefix),
{
    let m: [u8; 4] = if tun_prefix == 100 {
        [255, 192, 0, 0]
    } else {
        [255, 255, 255, 0]
    };
    assert(m@ =~= netmask_of(tun_prefix));
    m
}

/// The addresses in a command line. `beside` is the driver library beside the
/// program, if there is one.
pub fn parse_net(argv: &Vec<String>, ips: &Addresses, beside: &Option<String>) -> (r: Result<Net, ArgError>)
    ensures
        match r {
            Ok(n) => net_arg(text::texts(argv@), *ips, text_view(*beside)) == Ok::<NetView, ArgFault>(n@),
            Err(e) => net_arg(text::texts(argv@), *ips, text_view(*beside)) == Err::<NetView, ArgFault>(e@),
        },
{
    let (self_addr, peer_addr, peer_ip): (IPv8Address, IPv8Address, IpAddr) = match parse_ends(argv, ips) {
        Ok(v) => v,
        Err(e) => {
            return Err(e);
        },
    };
    let (nt_size, tun_ip, (udp_port, peer_port)): (usize, [u8; 4], (u16, u16)) = match parse_local(argv, ips) {
        Ok(v) => v,
        Err(e) => {
            return Err(e);
        },
    };
    let adapter_name = match cli::arg_value(argv, "--adapter-name") {
        Some(n) => n,
        None => "IPv8Plus".to_owned(),
    };
    let (tun_prefix, (mtu, tun_mtu)): (u8, (usize, usize)) = match parse_sizes(argv) {
        Ok(v) => v,
        Err(e) => {
            return Err(e);
        },
    };
    let alt = match parse_alt(argv, ips) {
        Ok(v) => v,
        Err(e) => {
            return Err(e);
        },
    };
    let dll_path = match parse_dll(argv, beside) {
        Ok(v) => v,
        Err(e) => {
            return Err(e);
        },
    };
    Ok(
        Net {
            self_addr,
            peer_addr,
            peer_ip,
            nt_size,
            tun_ip,
            netmask: netmask(tun_prefix),
            udp_port,
            peer_port,
            adapter_name,
            tun_prefix,
            mtu,
            tun_mtu,
            alt,
            dll_path,
        },
    )
}

/// Whether a number is what an argument says: its digits, or the default where it
/// is not there.
pub open spec fn is_asked(argv: Seq<Seq<char>>, flag: Seq<char>, default: int, n: int) -> bool {
    match cli::value_of(argv, flag) {
        None => n == default,
        Some(t) => text::all_digits(text::unsigned_part(t)) && n == text::decimal_value(text::unsigned_part(t)),
    }
}

/// The addresses, ports and sizes of a node are those that its arguments say.
pub proof fn net_is_as_asked(argv: Seq<Seq<char>>, ips: Addresses, beside: Option<Seq<char>>)
    requires
        net_arg(argv, ips, beside) is Ok,
    ensures
        ({
            let v = net_arg(argv, ips, beside)->Ok_0;
            &&& cli::value_of(argv, "--self"@) is Some
            &&& header::address_of_text(cli::value_of(argv, "--self"@)->0) == Ok::<IPv8Address, AddrParseError>(v.self_addr)
            &&& cli::value_of(argv, "--peer-addr"@) is Some
            &&& header::address_of_text(cli::value_of(argv, "--peer-addr"@)->0) == Ok::<IPv8Address, AddrParseError>(
                v.peer_addr,
            )
            &&& cli::value_of(argv, "--peer-ip"@) is Some
            &&& ips.peer_ip == Ok::<IpAddr, String>(v.peer_ip)
            &&& is_asked(argv, "--nt-size"@, 64, v.nt_size as int)
            &&& is_asked(argv, "--udp-port"@, 45_700, v.udp_port as int)
            &&& is_asked(argv, "--peer-port"@, v.udp_port as int, v.peer_port as int)
            &&& is_asked(argv, "--tun-prefix"@, 100, v.tun_prefix as int)
            &&& is_asked(argv, "--mtu"@, 1432, v.mtu as int)
            &&& 1280 <= v.mtu <= 65535
            &&& is_asked(argv, "--tun-mtu"@, v.mtu as int, v.tun_mtu as int)
        }),
{
}

/// The other settings of the network are those that the arguments say: the tunnel
/// address, the mask that goes with the prefix, the name of the adapter.
#[verifier::rlimit(40)]
pub proof fn tunnel_is_as_asked(argv: Seq<Seq<char>>, ips: Addresses, beside: Option<Seq<char>>)
    requires
        net_arg(argv, ips, beside) is Ok,
    ensures
        ({
            let v = net_arg(argv, ips, beside)->Ok_0;
            &&& cli::value_of(argv, "--tun-ip"@) is None ==> v.tun_ip == seq![100u8, 64u8, 0u8, 1u8]
            &&& cli::value_of(argv, "--tun-ip"@) is Some ==> ips.tun_ip is Ok && v.tun_ip == ips.tun_ip->Ok_0@
            &&& v.tun_prefix == 100 ==> v.netmask == seq![255u8, 192u8, 0u8, 0u8]
            &&& v.tun_prefix != 100 ==> v.netmask == seq![255u8, 255u8, 255u8, 0u8]
            &&& cli::value_of(argv, "--adapter-name"@) is None ==> v.adapter_name == "IPv8Plus"@
            &&& cli::value_of(argv, "--adapter-name"@) matches Some(n) ==> v.adapter_name == n
            &&& ways_arg(argv, ips, beside) == Ok::<(Option<(IpAddr, u16)>, Seq<char>), ArgFault>((v.alt, v.dll_path))
        }),
{
}

/// The second entry is given with address and port, or not at all; the library is
/// the one that is named, or the one beside the program, and is needed but for a
/// node without a tunnel device.
pub proof fn ways_are_as_asked(argv: Seq<Seq<char>>, ips: Addresses, beside: Option<Seq<char>>)
    requires
        ways_arg(argv, ips, beside) is Ok,
    ensures
        ({
            let (alt, dll) = ways_arg(argv, ips, beside)->Ok_0;
            &&& alt is Some <==> cli::value_of(argv, "--alt-ip"@) is Some
            &&& alt is Some <==> cli::value_of(argv, "--alt-port"@) is Some
            &&& alt matches Some((ip, port)) ==> ips.alt_ip == Ok::<IpAddr, String>(ip) && is_asked(
                argv,
                "--alt-port"@,
                0,
                port as int,
            )
            &&& cli::value_of(argv, "--dll"@) matches Some(p) ==> dll == p
            &&& cli::value_of(argv, "--dll"@) is None && beside is Some ==> dll == beside->0
            &&& cli::value_of(argv, "--dll"@) is None && beside is None ==> cli::has(argv, "--no-tun"@)
        }),
{
}

/// A seed is given as 64 hexadecimal digits, or not at all.
pub proof fn seed_is_as_asked(argv: Seq<Seq<char>>, flag: Seq<char>)
    ensures
        cli::value_of(argv, flag) is None ==> seed_arg(argv, flag) == Ok::<Option<Seq<u8>>, ArgFault>(None),
        cli::value_of(argv, flag) matches Some(t) ==> if t.len() == 64 && text::all_hex(t) {
            seed_arg(argv, flag) == Ok::<Option<Seq<u8>>, ArgFault>(Some(text::hex_bytes(t)))
        } else {
            seed_arg(argv, flag) is Err
        },
{
}

} // verus!
