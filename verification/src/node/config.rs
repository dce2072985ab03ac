//! What the node was told to do.

use vstd::prelude::*;
use vstd::string::StringExecFns;
use crate::cli;
use crate::fec::{FEC_MAX_K, FEC_MIN_K};
use crate::node::args;
use crate::node::args::{
    Addresses, ArgError, ArgFault, CipherSuite, Config, NetView, RioMode, Trust, TrustView, Tuning, HOOK_PORT,
};
use crate::node::sock::SockAddr;
use crate::text;
use crate::wire;

verus! {

impl ArgFault {
    /// What the error says.
    pub open spec fn text(self) -> Seq<char> {
        match self {
            ArgFault::Missing(f) => "缺少 "@ + f,
            ArgFault::BadAddress(f, e) => f + ": "@ + e.text(),
            ArgFault::BadIp(f, w) => f + ": "@ + w,
            ArgFault::NotNumber(f) => f + if f == "--tun-prefix"@ {
                " 非 0-255 数字"@
            } else {
                " 非数字"@
            },
            ArgFault::MtuRange => "--mtu 必须在 1280..=65535 之间"@,
            ArgFault::AltPair => "--alt-ip 与 --alt-port 必须成对提供"@,
            ArgFault::NoDll => "找不到 wintun.dll：用 --dll 指定或放到 exe 同目录"@,
            ArgFault::BadSeed(f) => f + ": 种子必须是 64 个十六进制字符"@,
            ArgFault::ShardsRange(n) => "--shards 必须在 1..=64，收到 "@ + text::decimal_text(n as nat),
            ArgFault::PunchResolver => "--punch 需要 --resolver <url>（会合信令走 Resolver）"@,
            ArgFault::PunchSeed => "--punch 需要 --ed-seed（登记/会合 PoP 用节点私钥）"@,
            ArgFault::CacheZone => "--cert-cache 仅在 --zone 注册路径下有意义"@,
            ArgFault::AuthSeed => "--auth 必须提供 --ed-seed（节点签名私钥种子）"@,
            ArgFault::AuthTrust => "--auth 需要 --zone <url>（真机注册取证）或 --ca-seed（预配验证）"@,
            ArgFault::HookLoopback => "--hook 仅允许绑定环回地址（127.0.0.1 / ::1）"@,
            ArgFault::HookPolicy(s) => "--hook-policy 只接受 accept|drop，收到 "@ + s,
            ArgFault::Cipher(s) => "--cipher 只接受 chacha|aes，收到 "@ + s,
            ArgFault::Rio(s) => "--rio 只接受 on|auto|off，收到 "@ + s,
            ArgFault::MpAlt => "--mp 需要 --alt-ip/--alt-port（备用入口即第二路径目的地）"@,
            ArgFault::MpFallback => "--mp 与 --fallback 互斥（alt 入口角色冲突：备用入口 vs 级联候选，v1 不做组合）"@,
            ArgFault::FecK(n) => "--fec-k 必须在 2..=16，收到 "@ + text::decimal_text(n as nat),
        }
    }
}

impl ArgError {
    /// What the error says.
    pub fn message(&self) -> (s: String)
        ensures
            s@ == self@.text(),
    {
        let mut s = String::new();
        match self {
            ArgError::Missing(f) => {
                s.append("缺少 ");
                s.append(f);
            },
            ArgError::BadAddress(f, e) => {
                s.append(f);
                s.append(": ");
                s.append(e.message().as_str());
            },
            ArgError::BadIp(f, w) => {
                s.append(f);
                s.append(": ");
                s.append(w.as_str());
            },
            ArgError::NotNumber(f) => {
                s.append(f);
                if text::same_text(f, "--tun-prefix") {
                    s.append(" 非 0-255 数字");
                } else {
                    s.append(" 非数字");
                }
            },
            ArgError::MtuRange => {
                s.append("--mtu 必须在 1280..=65535 之间");
            },
            ArgError::AltPair => {
                s.append("--alt-ip 与 --alt-port 必须成对提供");
            },
            ArgError::NoDll => {
                s.append("找不到 wintun.dll：用 --dll 指定或放到 exe 同目录");
            },
            ArgError::BadSeed(f) => {
                s.append(f);
                s.append(": 种子必须是 64 个十六进制字符");
            },
            ArgError::ShardsRange(n) => {
                s.append("--shards 必须在 1..=64，收到 ");
                text::push_decimal(&mut s, *n as u64);
            },
            ArgError::PunchResolver => {
                s.append("--punch 需要 --resolver <url>（会合信令走 Resolver）");
            },
            ArgError::PunchSeed => {
                s.append("--punch 需要 --ed-seed（登记/会合 PoP 用节点私钥）");
            },
            ArgError::CacheZone => {
                s.append("--cert-cache 仅在 --zone 注册路径下有意义");
            },
            ArgError::AuthSeed => {
                s.append("--auth 必须提供 --ed-seed（节点签名私钥种子）");
            },
            ArgError::AuthTrust => {
                s.append("--auth 需要 --zone <url>（真机注册取证）或 --ca-seed（预配验证）");
            },
            ArgError::HookLoopback => {
                s.append("--hook 仅允许绑定环回地址（127.0.0.1 / ::1）");
            },
            ArgError::HookPolicy(w) => {
                s.append("--hook-policy 只接受 accept|drop，收到 ");
                s.append(w.as_str());
            },
            ArgError::Cipher(w) => {
                s.append("--cipher 只接受 chacha|aes，收到 ");
                s.append(w.as_str());
            },
            ArgError::Rio(w) => {
                s.append("--rio 只接受 on|auto|off，收到 ");
                s.append(w.as_str());
            },
            ArgError::MpAlt => {
                s.append("--mp 需要 --alt-ip/--alt-port（备用入口即第二路径目的地）");
            },
            ArgError::MpFallback => {
                s.append("--mp 与 --fallback 互斥（alt 入口角色冲突：备用入口 vs 级联候选，v1 不做组合）");
            },
            ArgError::FecK(n) => {
                s.append("--fec-k 必须在 2..=16，收到 ");
                text::push_decimal(&mut s, *n as u64);
            },
        }
        assert(s@ =~= self@.text());
        s
    }
}

/// The number of workers.
pub open spec fn shards_arg(argv: Seq<Seq<char>>) -> Result<u64, ArgFault> {
    match args::number_arg(argv, "--shards"@, 1, usize::MAX as u64) {
        Ok(n) => if 1 <= n <= 64 {
            Ok(n)
        } else {
            Err(ArgFault::ShardsRange(n as usize))
        },
        Err(e) => Err(e),
    }
}

/// The first thing wrong with keys and services together.
pub open spec fn trust_fault(t: TrustView) -> Option<ArgFault> {
    if t.punch && t.resolver is None {
        Some(ArgFault::PunchResolver)
    } else if t.punch && t.ed_seed is None {
        Some(ArgFault::PunchSeed)
    } else if t.cert_cache is Some && t.zone is None {
        Some(ArgFault::CacheZone)
    } else if t.auth && t.ed_seed is None {
        Some(ArgFault::AuthSeed)
    } else if t.auth && t.zone is None && t.ca_seed is None {
        Some(ArgFault::AuthTrust)
    } else {
        None
    }
}

/// The keys and services in a command line, or the first thing wrong with
/// them.
pub open spec fn trust_arg(argv: Seq<Seq<char>>) -> Result<TrustView, ArgFault> {
    match args::seed_arg(argv, "--ca-seed"@) {
        Err(e) => Err(e),
        Ok(ca_seed) => match args::seed_arg(argv, "--ed-seed"@) {
            Err(e) => Err(e),
            Ok(ed_seed) => match shards_arg(argv) {
                Err(e) => Err(e),
                Ok(n) => {
                    let t = TrustView {
                        auth: cli::has(argv, "--auth"@),
                        ca_seed,
                        ed_seed,
                        zone: cli::value_of(argv, "--zone"@),
                        cert_cache: cli::value_of(argv, "--cert-cache"@),
                        resolver: cli::value_of(argv, "--resolver"@),
                        punch: cli::has(argv, "--punch"@),
                        shards: n as usize,
                    };
                    match trust_fault(t) {
                        Some(e) => Err(e),
                        None => Ok(t),
                    }
                },
            },
        },
    }
}

/// Finds what is wrong with keys and services together.
fn check_trust(t: &Trust) -> (r: Option<ArgError>)
    ensures
        match r {
            Some(e) => trust_fault(t@) == Some(e@),
            None => trust_fault(t@) is None,
        },
{
    if t.punch {
        if t.resolver.is_none() {
            return Some(ArgError::PunchResolver);
        }
        if t.ed_seed.is_none() {
            return Some(ArgError::PunchSeed);
        }
    }
    if t.cert_cache.is_some() && t.zone.is_none() {
        return Some(ArgError::CacheZone);
    }
    if t.auth && t.ed_seed.is_none() {
        return Some(ArgError::AuthSeed);
    }
    if t.auth && t.zone.is_none() && t.ca_seed.is_none() {
        return Some(ArgError::AuthTrust);
    }
    None
}

/// The keys and services in a command line.
pub fn parse_trust(argv: &Vec<String>) -> (r: Result<Trust, ArgError>)
    ensures
        match r {
            Ok(t) => trust_arg(text::texts(argv@)) == Ok::<TrustView, ArgFault>(t@),
            Err(e) => trust_arg(text::texts(argv@)) == Err::<TrustView, ArgFault>(e@),
        },
{
    let ca_seed = match args::seed(argv, "--ca-seed") {
        Ok(k) => k,
        Err(e) => {
            return Err(e);
        },
    };
    let ed_seed = match args::seed(argv, "--ed-seed") {
        Ok(k) => k,
        Err(e) => {
            return Err(e);
        },
    };
    let shards: u64 = match args::number(argv, "--shards", 1, usize::MAX as u64) {
        Ok(n) => n,
        Err(e) => {
            return Err(e);
        },
    };
    if shards == 0 || shards > 64 {
        return Err(ArgError::ShardsRange(shards as usize));
    }
    let t = Trust {
        auth: cli::has_flag(argv, "--auth"),
        ca_seed,
        ed_seed,
        zone: cli::arg_value(argv, "--zone"),
        cert_cache: cli::arg_value(argv, "--cert-cache"),
        resolver: cli::arg_value(argv, "--resolver"),
        punch: cli::has_flag(argv, "--punch"),
        shards: shards as usize,
    };
    match check_trust(&t) {
        Some(e) => Err(e),
        None => Ok(t),
    }
}

/// Whether a socket address is of this host.
pub open spec fn is_loopback(a: SockAddr) -> bool {
    match a {
        SockAddr::V4 { ip, port: _ } => ip@[0] == 127,
        SockAddr::V6 { ip6, port: _, flowinfo: _, scope_id: _ } => ip6@ == wire::zeros(15).push(1u8),
    }
}

/// Whether an IPv6 host is this host.
fn loopback6(ip6: &[u8; 16]) -> (r: bool)
    ensures
        r == (ip6@ == wire::zeros(15).push(1u8)),
{
    let mut i: usize = 0;
    while i < 15
        invariant
            i <= 15,
            forall|j: int| 0 <= j < i ==> #[trigger] ip6@[j] == 0,
        decreases 15 - i,
    {
        if ip6[i] != 0 {
            assert(ip6@[i as int] != wire::zeros(15).push(1u8)[i as int]);
            return false;
        }
        i = i + 1;
    }
    assert(wire::zeros(15).push(1u8)[15] == 1);
    let r = ip6[15] == 1;
    assert(r ==> ip6@ =~= wire::zeros(15).push(1u8));
    r
}

/// Whether a socket address is of this host.
pub fn loopback(a: &SockAddr) -> (r: bool)
    ensures
        r == is_loopback(*a),
{
    match a {
        SockAddr::V4 { ip, .. } => ip[0] == 127,
        SockAddr::V6 { ip6, .. } => loopback6(ip6),
    }
}

/// Where a program listens that is asked about packets: only on this host.
pub open spec fn hook_arg(argv: Seq<Seq<char>>, ips: Addresses) -> Result<Option<SockAddr>, ArgFault> {
    if !cli::has(argv, "--hook"@) {
        Ok(None)
    } else if cli::value_of(argv, "--hook"@) is None {
        Ok(Some(SockAddr::V4 { ip: [127u8, 0u8, 0u8, 1u8], port: HOOK_PORT }))
    } else {
        match args::read_ip("--hook"@, ips.hook) {
            Ok(a) => if is_loopback(a) {
                Ok(Some(a))
            } else {
                Err(ArgFault::HookLoopback)
            },
            Err(e) => Err(e),
        }
    }
}

/// Where a program listens that is asked about packets.
fn parse_hook(argv: &Vec<String>, ips: &Addresses) -> (r: Result<Option<SockAddr>, ArgError>)
    ensures
        match r {
            Ok(a) => hook_arg(text::texts(argv@), *ips) == Ok::<Option<SockAddr>, ArgFault>(a),
            Err(e) => hook_arg(text::texts(argv@), *ips) == Err::<Option<SockAddr>, ArgFault>(e@),
        },
{
    if !cli::has_flag(argv, "--hook") {
        return Ok(None);
    }
    if cli::arg_value(argv, "--hook").is_none() {
        let ip: [u8; 4] = [127, 0, 0, 1];
        assert(ip =~= [127u8, 0u8, 0u8, 1u8]);
        return Ok(Some(SockAddr::V4 { ip, port: HOOK_PORT }));
    }
    match &ips.hook {
        Ok(a) => if loopback(a) {
            Ok(Some(*a))
        } else {
            Err(ArgError::HookLoopback)
        },
        Err(w) => Err(ArgError::BadIp("--hook", w.clone())),
    }
}

/// Whether packets of which nothing is said are dropped.
pub open spec fn policy_arg(argv: Seq<Seq<char>>) -> Result<bool, ArgFault> {
    match cli::value_of(argv, "--hook-policy"@) {
        None => Ok(false),
        Some(s) => if text::lowered(s) == "drop"@ {
            Ok(true)
        } else if text::lowered(s) == "accept"@ {
            Ok(false)
        } else {
            Err(ArgFault::HookPolicy(s))
        },
    }
}

/// Whether packets of which nothing is said are dropped.
fn parse_policy(argv: &Vec<String>) -> (r: Result<bool, ArgError>)
    ensures
        match r {
            Ok(b) => policy_arg(text::texts(argv@)) == Ok::<bool, ArgFault>(b),
            Err(e) => policy_arg(text::texts(argv@)) == Err::<bool, ArgFault>(e@),
        },
{
    proof {
        reveal_strlit("drop");
        reveal_strlit("accept");
    }
    match cli::arg_value(argv, "--hook-policy") {
        None => Ok(false),
        Some(s) => if text::lower_is(s.as_str(), "drop") {
            Ok(true)
        } else if text::lower_is(s.as_str(), "accept") {
            Ok(false)
        } else {
            Err(ArgError::HookPolicy(s))
        },
    }
}

/// The cipher.
pub open spec fn cipher_arg(argv: Seq<Seq<char>>) -> Result<CipherSuite, ArgFault> {
    match cli::value_of(argv, "--cipher"@) {
        None => Ok(CipherSuite::ChaCha20Poly1305),
        Some(s) => if text::lowered(s) == "chacha"@ || s == "chacha20-poly1305"@ {
            Ok(CipherSuite::ChaCha20Poly1305)
        } else if text::lowered(s) == "aes"@ || text::lowered(s) == "aes-256-gcm"@ {
            Ok(CipherSuite::Aes256Gcm)
        } else {
            Err(ArgFault::Cipher(s))
        },
    }
}

/// The cipher.
fn parse_cipher(argv: &Vec<String>) -> (r: Result<CipherSuite, ArgError>)
    ensures
        match r {
            Ok(c) => cipher_arg(text::texts(argv@)) == Ok::<CipherSuite, ArgFault>(c),
            Err(e) => cipher_arg(text::texts(argv@)) == Err::<CipherSuite, ArgFault>(e@),
        },
{
    proof {
        reveal_strlit("chacha");
        reveal_strlit("aes");
        reveal_strlit("aes-256-gcm");
    }
    match cli::arg_value(argv, "--cipher") {
        None => Ok(CipherSuite::ChaCha20Poly1305),
        Some(s) => if text::lower_is(s.as_str(), "chacha") || text::same_text(s.as_str(), "chacha20-poly1305") {
            Ok(CipherSuite::ChaCha20Poly1305)
        } else if text::lower_is(s.as_str(), "aes") || text::lower_is(s.as_str(), "aes-256-gcm") {
            Ok(CipherSuite::Aes256Gcm)
        } else {
            Err(ArgError::Cipher(s))
        },
    }
}

/// Whether registered buffers are used.
pub open spec fn rio_arg(argv: Seq<Seq<char>>) -> Result<RioMode, ArgFault> {
    match cli::value_of(argv, "--rio"@) {
        None => Ok(RioMode::Auto),
        Some(s) => if text::lowered(s) == "on"@ {
            Ok(RioMode::On)
        } else if text::lowered(s) == "auto"@ {
            Ok(RioMode::Auto)
        } else if text::lowered(s) == "off"@ {
            Ok(RioMode::Off)
        } else {
            Err(ArgFault::Rio(s))
        },
    }
}

/// Whether registered buffers are used.
fn parse_rio(argv: &Vec<String>) -> (r: Result<RioMode, ArgError>)
    ensures
        match r {
            Ok(m) => rio_arg(text::texts(argv@)) == Ok::<RioMode, ArgFault>(m),
            Err(e) => rio_arg(text::texts(argv@)) == Err::<RioMode, ArgFault>(e@),
        },
{
    proof {
        reveal_strlit("on");
        reveal_strlit("auto");
        reveal_strlit("off");
    }
    match cli::arg_value(argv, "--rio") {
        None => Ok(RioMode::Auto),
        Some(s) => if text::lower_is(s.as_str(), "on") {
            Ok(RioMode::On)
        } else if text::lower_is(s.as_str(), "auto") {
            Ok(RioMode::Auto)
        } else if text::lower_is(s.as_str(), "off") {
            Ok(RioMode::Off)
        } else {
            Err(ArgError::Rio(s))
        },
    }
}

/// The hook, what becomes of packets of which it says nothing, how long it is
/// waited for and how much it sees.
pub open spec fn hooks_arg(argv: Seq<Seq<char>>, ips: Addresses) -> Result<(Option<SockAddr>, u64, bool, u64), ArgFault> {
    match hook_arg(argv, ips) {
        Err(e) => Err(e),
        Ok(hook) => match args::number_arg(argv, "--hook-timeout"@, 50, u64::MAX) {
            Err(e) => Err(e),
            Ok(timeout) => match policy_arg(argv) {
                Err(e) => Err(e),
                Ok(drop) => match args::number_arg(argv, "--hook-payload"@, 128, usize::MAX as u64) {
                    Err(e) => Err(e),
                    Ok(payload) => Ok((hook, timeout, drop, payload)),
                },
            },
        },
    }
}

/// The cipher, the use of registered buffers, the segment size and the size of
/// a group.
pub open spec fn modes_arg(argv: Seq<Seq<char>>) -> Result<(CipherSuite, RioMode, u64, u64), ArgFault> {
    match cipher_arg(argv) {
        Err(e) => Err(e),
        Ok(cipher) => match rio_arg(argv) {
            Err(e) => Err(e),
            Ok(rio) => match args::number_arg(argv, "--mss-clamp"@, 0, 65535) {
                Err(e) => Err(e),
                Ok(mss) => match args::number_arg(argv, "--fec-k"@, 4, usize::MAX as u64) {
                    Err(e) => Err(e),
                    Ok(k) => Ok((cipher, rio, mss, k)),
                },
            },
        },
    }
}

/// The first thing wrong with what is done with packets.
pub open spec fn tuning_fault(t: Tuning, has_alt: bool) -> Option<ArgFault> {
    if t.mp && !has_alt {
        Some(ArgFault::MpAlt)
    } else if t.mp && t.fallback {
        Some(ArgFault::MpFallback)
    } else if !(FEC_MIN_K <= t.fec_k <= FEC_MAX_K) {
        Some(ArgFault::FecK(t.fec_k))
    } else {
        None
    }
}

/// What is done with packets, or the first thing wrong with it.
pub open spec fn tuning_arg(argv: Seq<Seq<char>>, ips: Addresses, has_alt: bool) -> Result<Tuning, ArgFault> {
    match hooks_arg(argv, ips) {
        Err(e) => Err(e),
        Ok((hook, timeout, drop, payload)) => match modes_arg(argv) {
            Err(e) => Err(e),
            Ok((cipher, rio_mode, mss, k)) => {
                let t = Tuning {
                    hook,
                    hook_timeout_ms: timeout,
                    hook_default_drop: drop,
                    hook_payload: payload as usize,
                    cipher,
                    rio_mode,
                    mss_clamp: if mss == 0 {
                        None
                    } else {
                        Some(mss as u16)
                    },
                    fec_k: k as usize,
                    mp: cli::has(argv, "--mp"@),
                    fallback: cli::has(argv, "--fallback"@),
                };
                match tuning_fault(t, has_alt) {
                    Some(e) => Err(e),
                    None => Ok(t),
                }
            },
        },
    }
}

/// The hook and what belongs to it.
fn parse_hooks(argv: &Vec<String>, ips: &Addresses) -> (r: Result<(Option<SockAddr>, u64, bool, usize), ArgError>)
    ensures
        match r {
            Ok((h, t, d, p)) => hooks_arg(text::texts(argv@), *ips) == Ok::<(Option<SockAddr>, u64, bool, u64), ArgFault>(
                (h, t, d, p as u64),
            ),
            Err(e) => hooks_arg(text::texts(argv@), *ips) == Err::<(Option<SockAddr>, u64, bool, u64), ArgFault>(e@),
        },
{
    let hook = match parse_hook(argv, ips) {
        Ok(v) => v,
        Err(e) => {
            return Err(e);
        },
    };
    let timeout: u64 = match args::number(argv, "--hook-timeout", 50, u64::MAX) {
        Ok(v) => v,
        Err(e) => {
            return Err(e);
        },
    };
    let drop = match parse_policy(argv) {
        Ok(v) => v,
        Err(e) => {
            return Err(e);
        },
    };
    match args::number(argv, "--hook-payload", 128, usize::MAX as u64) {
        Ok(n) => Ok((hook, timeout, drop, n as usize)),
        Err(e) => Err(e),
    }
}

/// The cipher, the use of registered buffers, the segment size and the size of
/// a group.
fn parse_modes(argv: &Vec<String>) -> (r: Result<(CipherSuite, RioMode, u16, usize), ArgError>)
    ensures
        match r {
            Ok((c, m, s, k)) => modes_arg(text::texts(argv@)) == Ok::<(CipherSuite, RioMode, u64, u64), ArgFault>(
                (c, m, s as u64, k as u64),
            ),
            Err(e) => modes_arg(text::texts(argv@)) == Err::<(CipherSuite, RioMode, u64, u64), ArgFault>(e@),
        },
{
    let cipher = match parse_cipher(argv) {
        Ok(v) => v,
        Err(e) => {
            return Err(e);
        },
    };
    let rio = match parse_rio(argv) {
        Ok(v) => v,
        Err(e) => {
            return Err(e);
        },
    };
    let mss: u64 = match args::number(argv, "--mss-clamp", 0, 65535) {
        Ok(v) => v,
        Err(e) => {
            return Err(e);
        },
    };
    match args::number(argv, "--fec-k", 4, usize::MAX as u64) {
        Ok(k) => Ok((cipher, rio, mss as u16, k as usize)),
        Err(e) => Err(e),
    }
}

/// What is done with packets.
pub fn parse_tuning(argv: &Vec<String>, ips: &Addresses, has_alt: bool) -> (r: Result<Tuning, ArgError>)
    ensures
        match r {
            Ok(t) => tuning_arg(text::texts(argv@), *ips, has_alt) == Ok::<Tuning, ArgFault>(t),
            Err(e) => tuning_arg(text::texts(argv@), *ips, has_alt) == Err::<Tuning, ArgFault>(e@),
        },
{
    let (hook, hook_timeout_ms, hook_default_drop, hook_payload): (Option<SockAddr>, u64, bool, usize) =
        match parse_hooks(argv, ips) {
        Ok(v) => v,
        Err(e) => {
            return Err(e);
        },
    };
    let (cipher, rio_mode, mss, fec_k): (CipherSuite, RioMode, u16, usize) = match parse_modes(argv) {
        Ok(v) => v,
        Err(e) => {
            return Err(e);
        },
    };
    let mp = cli::has_flag(argv, "--mp");
    let fallback = cli::has_flag(argv, "--fallback");
    if mp && !has_alt {
        return Err(ArgError::MpAlt);
    }
    if mp && fallback {
        return Err(ArgError::MpFallback);
    }
    if fec_k < FEC_MIN_K || fec_k > FEC_MAX_K {
        return Err(ArgError::FecK(fec_k));
    }
    let mss_clamp = if mss == 0 {
        None
    } else {
        Some(mss)
    };
    Ok(
        Tuning {
            hook,
            hook_timeout_ms,
            hook_default_drop,
            hook_payload,
            cipher,
            rio_mode,
            mss_clamp,
            fec_k,
            mp,
            fallback,
        },
    )
}

/// What the node was told to do, as a mathematical value.
pub ghost struct ConfigView {
    pub net: NetView,
    pub trust: TrustView,
    pub tuning: Tuning,
    pub learn_peer: bool,
    pub no_tun: bool,
    pub initiate: bool,
    pub compat: bool,
    pub migrate: bool,
    pub fec: bool,
    pub l2: bool,
}

impl View for Config {
    type V = ConfigView;

    open spec fn view(&self) -> ConfigView {
        ConfigView {
            net: self.net@,
            trust: self.trust@,
            tuning: self.tuning,
            learn_peer: self.learn_peer,
            no_tun: self.no_tun,
            initiate: self.initiate,
            compat: self.compat,
            migrate: self.migrate,
            fec: self.fec,
            l2: self.l2,
        }
    }
}

/// What a command line tells the node to do, or the first thing wrong with it.
pub open spec fn config_of(argv: Seq<Seq<char>>, ips: Addresses, beside: Option<Seq<char>>) -> Result<
    ConfigView,
    ArgFault,
> {
    match args::net_arg(argv, ips, beside) {
        Err(e) => Err(e),
        Ok(net) => match trust_arg(argv) {
            Err(e) => Err(e),
            Ok(trust) => match tuning_arg(argv, ips, net.alt is Some) {
                Err(e) => Err(e),
                Ok(tuning) => Ok(
                    ConfigView {
                        net,
                        trust,
                        tuning,
                        learn_peer: cli::has(argv, "--learn-peer"@),
                        no_tun: cli::has(argv, "--no-tun"@),
                        initiate: cli::has(argv, "--initiate"@),
                        compat: cli::has(argv, "--compat"@),
                        migrate: cli::has(argv, "--migrate"@),
                        fec: cli::has(argv, "--fec"@),
                        l2: cli::has(argv, "--l2"@),
                    },
                ),
            },
        },
    }
}

/// Reads the command line of the node. `ips` are the addresses of the network
/// in it, and `beside` is the driver library beside the program, if there is
/// one.
pub fn parse_args_from(argv: &Vec<String>, ips: &Addresses, beside: &Option<String>) -> (r: Result<Config, ArgError>)
    ensures
        match r {
            Ok(c) => config_of(text::texts(argv@), *ips, args::text_view(*beside)) == Ok::<ConfigView, ArgFault>(c@),
            Err(e) => config_of(text::texts(argv@), *ips, args::text_view(*beside)) == Err::<ConfigView, ArgFault>(e@),
        },
{
    let net = match args::parse_net(argv, ips, beside) {
        Ok(v) => v,
        Err(e) => {
            return Err(e);
        },
    };
    let trust = match parse_trust(argv) {
        Ok(v) => v,
        Err(e) => {
            return Err(e);
        },
    };
    let tuning = match parse_tuning(argv, ips, net.alt.is_some()) {
        Ok(v) => v,
        Err(e) => {
            return Err(e);
        },
    };
    Ok(
        Config {
            net,
            trust,
            tuning,
            learn_peer: cli::has_flag(argv, "--learn-peer"),
            no_tun: cli::has_flag(argv, "--no-tun"),
            initiate: cli::has_flag(argv, "--initiate"),
            compat: cli::has_flag(argv, "--compat"),
            migrate: cli::has_flag(argv, "--migrate"),
            fec: cli::has_flag(argv, "--fec"),
            l2: cli::has_flag(argv, "--l2"),
        },
    )
}

/// What an accepted command line guarantees: sizes and keys are as the rest of
/// the node needs them.
pub proof fn accepted_arguments_fit(argv: Seq<Seq<char>>, ips: Addresses, beside: Option<Seq<char>>)
    requires
        config_of(argv, ips, beside) is Ok,
    ensures
        ({
            let c = config_of(argv, ips, beside)->Ok_0;
            &&& 1280 <= c.net.mtu <= 65535
            &&& 1 <= c.trust.shards <= 64
            &&& FEC_MIN_K <= c.tuning.fec_k <= FEC_MAX_K
            &&& c.tuning.mp ==> c.net.alt is Some && !c.tuning.fallback
            &&& c.trust.punch ==> c.trust.resolver is Some && c.trust.ed_seed is Some
            &&& c.trust.auth ==> c.trust.ed_seed is Some && (c.trust.zone is Some || c.trust.ca_seed is Some)
            &&& c.trust.cert_cache is Some ==> c.trust.zone is Some
            &&& c.tuning.hook matches Some(a) ==> is_loopback(a)
            &&& !(c.tuning.rio_mode is L2)
        }),
{
}

/// What a node trusts is what its arguments say; it asks for what it needs: to
/// punch, a resolver and a seed; to keep a certificate, a zone; to prove itself, a
/// seed, and a zone or an authority.
pub proof fn trust_is_as_asked(argv: Seq<Seq<char>>)
    requires
        trust_arg(argv) is Ok,
    ensures
        ({
            let t = trust_arg(argv)->Ok_0;
            &&& t.auth == cli::has(argv, "--auth"@)
            &&& t.punch == cli::has(argv, "--punch"@)
            &&& t.zone == cli::value_of(argv, "--zone"@)
            &&& t.cert_cache == cli::value_of(argv, "--cert-cache"@)
            &&& t.resolver == cli::value_of(argv, "--resolver"@)
            &&& args::seed_arg(argv, "--ca-seed"@) == Ok::<Option<Seq<u8>>, ArgFault>(t.ca_seed)
            &&& args::seed_arg(argv, "--ed-seed"@) == Ok::<Option<Seq<u8>>, ArgFault>(t.ed_seed)
            &&& args::is_asked(argv, "--shards"@, 1, t.shards as int)
            &&& 1 <= t.shards <= 64
            &&& t.punch ==> t.resolver is Some && t.ed_seed is Some
            &&& t.cert_cache is Some ==> t.zone is Some
            &&& t.auth ==> t.ed_seed is Some && (t.zone is Some || t.ca_seed is Some)
        }),
{
}

/// A node that lacks nothing that it needs is not refused.
pub proof fn enough_trust_is_taken(t: TrustView)
    requires
        t.punch ==> t.resolver is Some && t.ed_seed is Some,
        t.cert_cache is Some ==> t.zone is Some,
        t.auth ==> t.ed_seed is Some && (t.zone is Some || t.ca_seed is Some),
    ensures
        trust_fault(t) is None,
{
}

/// How a node is tuned is what its arguments say.
pub proof fn tuning_is_as_asked(argv: Seq<Seq<char>>, ips: Addresses, has_alt: bool)
    requires
        tuning_arg(argv, ips, has_alt) is Ok,
    ensures
        ({
            let t = tuning_arg(argv, ips, has_alt)->Ok_0;
            &&& args::is_asked(argv, "--hook-timeout"@, 50, t.hook_timeout_ms as int)
            &&& args::is_asked(argv, "--hook-payload"@, 128, t.hook_payload as int)
            &&& args::is_asked(argv, "--fec-k"@, 4, t.fec_k as int)
            &&& 2 <= t.fec_k <= 16
            &&& t.mss_clamp matches Some(m) ==> m > 0 && args::is_asked(argv, "--mss-clamp"@, 0, m as int)
            &&& t.mss_clamp is None ==> args::is_asked(argv, "--mss-clamp"@, 0, 0)
            &&& t.mp == cli::has(argv, "--mp"@)
            &&& t.fallback == cli::has(argv, "--fallback"@)
            &&& t.mp ==> has_alt && !t.fallback
        }),
{
}

/// The hook of a node: none where it is not asked for, a loopback address where it
/// is, and port 45810 where no address is given.
pub proof fn hook_is_as_asked(argv: Seq<Seq<char>>, ips: Addresses)
    requires
        hook_arg(argv, ips) is Ok,
    ensures
        ({
            let h = hook_arg(argv, ips)->Ok_0;
            &&& h is Some <==> cli::has(argv, "--hook"@)
            &&& h is Some && cli::value_of(argv, "--hook"@) is None ==> h == Some(
                SockAddr::V4 { ip: [127u8, 0u8, 0u8, 1u8], port: 45_810 },
            )
            &&& h is Some && cli::value_of(argv, "--hook"@) is Some ==> ips.hook == Ok::<SockAddr, String>(h->0)
            &&& h matches Some(SockAddr::V4 { ip, port: _ }) ==> ip@[0] == 127
            &&& h matches Some(SockAddr::V6 { ip6, port: _, flowinfo: _, scope_id: _ }) ==> ip6@[15] == 1 && forall|i: int|
                0 <= i < 15 ==> ip6@[i] == 0
        }),
{
    let h = hook_arg(argv, ips)->Ok_0;
    if let Some(SockAddr::V6 { ip6, port: _, flowinfo: _, scope_id: _ }) = h {
        let z = wire::zeros(15).push(1u8);
        assert(z[15] == 1);
        assert(forall|i: int| 0 <= i < 15 ==> z[i] == 0);
    }
}

/// The names of policies, ciphers and ways to send, in whatever case, and what
/// holds where none is given.
pub proof fn choices_are_as_asked(argv: Seq<Seq<char>>)
    ensures
        cli::value_of(argv, "--hook-policy"@) is None ==> policy_arg(argv) == Ok::<bool, ArgFault>(false),
        cli::value_of(argv, "--hook-policy"@) matches Some(s) ==> (policy_arg(argv) == Ok::<bool, ArgFault>(true)
            <==> text::lowered(s) == "drop"@),
        cli::value_of(argv, "--hook-policy"@) matches Some(s) ==> (text::lowered(s) == "accept"@ ==> policy_arg(argv)
            is Ok),
        cli::value_of(argv, "--cipher"@) is None ==> cipher_arg(argv) == Ok::<CipherSuite, ArgFault>(
            CipherSuite::ChaCha20Poly1305,
        ),
        cli::value_of(argv, "--cipher"@) matches Some(s) ==> (cipher_arg(argv) == Ok::<CipherSuite, ArgFault>(
            CipherSuite::Aes256Gcm,
        ) ==> text::lowered(s) == "aes"@ || text::lowered(s) == "aes-256-gcm"@),
        cli::value_of(argv, "--cipher"@) matches Some(s) ==> (text::lowered(s) == "chacha"@ ==> cipher_arg(argv) == Ok::<
            CipherSuite,
            ArgFault,
        >(CipherSuite::ChaCha20Poly1305)),
        cli::value_of(argv, "--rio"@) is None ==> rio_arg(argv) == Ok::<RioMode, ArgFault>(RioMode::Auto),
        cli::value_of(argv, "--rio"@) matches Some(s) ==> (rio_arg(argv) == Ok::<RioMode, ArgFault>(RioMode::On)
            <==> text::lowered(s) == "on"@),
        cli::value_of(argv, "--rio"@) matches Some(s) ==> (rio_arg(argv) == Ok::<RioMode, ArgFault>(RioMode::Off) ==> text::lowered(
            s,
        ) == "off"@),
{
    reveal_strlit("drop");
    reveal_strlit("accept");
    reveal_strlit("on");
    reveal_strlit("auto");
    reveal_strlit("off");
    assert("drop"@.len() == 4 && "accept"@.len() == 6);
}

/// What a node does is what its flags say.
pub proof fn flags_are_as_asked(argv: Seq<Seq<char>>, ips: Addresses, beside: Option<Seq<char>>)
    requires
        config_of(argv, ips, beside) is Ok,
    ensures
        ({
            let c = config_of(argv, ips, beside)->Ok_0;
            &&& args::net_arg(argv, ips, beside) == Ok::<args::NetView, ArgFault>(c.net)
            &&& trust_arg(argv) == Ok::<TrustView, ArgFault>(c.trust)
            &&& tuning_arg(argv, ips, c.net.alt is Some) == Ok::<Tuning, ArgFault>(c.tuning)
            &&& c.learn_peer == cli::has(argv, "--learn-peer"@)
            &&& c.no_tun == cli::has(argv, "--no-tun"@)
            &&& c.initiate == cli::has(argv, "--initiate"@)
            &&& c.compat == cli::has(argv, "--compat"@)
            &&& c.migrate == cli::has(argv, "--migrate"@)
            &&& c.fec == cli::has(argv, "--fec"@)
            &&& c.l2 == cli::has(argv, "--l2"@)
        }),
{
}

} // verus!
