//! What errors say.

use vstd::prelude::*;
use vstd::string::StringExecFns;
use crate::ans::card::AnsError;
use crate::codec::decode::DecodeError;
use crate::codec::encode::EncodeError;
use crate::codec::fragment::{FragmentError, MAX_GROUPS, MAX_GROUP_BYTES};
use crate::codec::header::{AddrParseError, BASE_HEADER_SIZE, MAX_EXT_CHAIN, MAX_PACKET_LEN, MAX_PAYLOAD_LEN};
use crate::codec::layouts::LayoutError;
use crate::codec::reassembly::ReassemblyError;
use crate::fec::FecError;
use crate::resolver::service::ResolveError;
use crate::text;
use crate::zone::ZoneError;

verus! {

impl AddrParseError {
    /// What the error says.
    pub open spec fn text(self) -> Seq<char> {
        match self {
            AddrParseError::Format => "IPv8+ 地址文本必须是 32 个十六进制数字（无分隔符）"@,
            AddrParseError::ReservedNonZero => "IPv8+ 地址 Reserved 位必须全 0（spec §2.2）"@,
        }
    }

    /// What the error says.
    pub fn message(&self) -> (s: String)
        ensures
            s@ == self.text(),
    {
        let mut s = String::new();
        match self {
            AddrParseError::Format => {
                s.append("IPv8+ 地址文本必须是 32 个十六进制数字（无分隔符）");
            },
            AddrParseError::ReservedNonZero => {
                s.append("IPv8+ 地址 Reserved 位必须全 0（spec §2.2）");
            },
        }
        assert(s@ =~= self.text());
        s
    }
}

impl EncodeError {
    /// What the error says.
    pub open spec fn text(self) -> Seq<char> {
        match self {
            EncodeError::BadVersion(v) => "非法协议版本 0x"@ + text::hex_number(v as nat) + "（必须为 0x8）"@,
            EncodeError::FieldOverflow(name) => "字段 "@ + name@ + " 溢出"@,
            EncodeError::ReservedBits => "Flags 保留位必须为 0"@,
            EncodeError::PayloadTooLong(n) => "PayloadLen "@ + text::decimal_text(n as nat) + " 超过协议上限 "@ + text::decimal_text(MAX_PAYLOAD_LEN as nat),
            EncodeError::PayloadLengthMismatch { header, actual } => "包头 PayloadLen("@ + text::decimal_text(header as nat) + ") 与实际载荷长度("@ + text::decimal_text(actual as nat) + ")不一致"@,
            EncodeError::TooManyExtHeaders(n) => "扩展头数量 "@ + text::decimal_text(n as nat) + " 超过上限 "@ + text::decimal_text(MAX_EXT_CHAIN as nat),
            EncodeError::PacketTooLong => "IPv8+ 包总长超过 "@ + text::decimal_text(MAX_PACKET_LEN as nat),
            EncodeError::NextHeaderMismatch { expect, got } => "NextHeader 应为 "@ + text::decimal_text(expect as nat) + "，实际 "@ + text::decimal_text(got as nat),
            EncodeError::FlagMismatch(name) => "标志位 "@ + name@ + " 与扩展头链不一致"@,
            EncodeError::AddressReserved => "IPv8Address.reserved 必须全 0（请用 IPv8Address::new）"@,
        }
    }

    /// What the error says.
    pub fn message(&self) -> (s: String)
        ensures
            s@ == self.text(),
    {
        let mut s = String::new();
        match self {
            EncodeError::BadVersion(v) => {
                s.append("非法协议版本 0x");
                text::push_hex(&mut s, *v as u128);
                s.append("（必须为 0x8）");
            },
            EncodeError::FieldOverflow(name) => {
                s.append("字段 ");
                s.append(name);
                s.append(" 溢出");
            },
            EncodeError::ReservedBits => {
                s.append("Flags 保留位必须为 0");
            },
            EncodeError::PayloadTooLong(n) => {
                s.append("PayloadLen ");
                text::push_decimal(&mut s, *n as u64);
                s.append(" 超过协议上限 ");
                text::push_decimal(&mut s, MAX_PAYLOAD_LEN as u64);
            },
            EncodeError::PayloadLengthMismatch { header, actual } => {
                s.append("包头 PayloadLen(");
                text::push_decimal(&mut s, *header as u64);
                s.append(") 与实际载荷长度(");
                text::push_decimal(&mut s, *actual as u64);
                s.append(")不一致");
            },
            EncodeError::TooManyExtHeaders(n) => {
                s.append("扩展头数量 ");
                text::push_decimal(&mut s, *n as u64);
                s.append(" 超过上限 ");
                text::push_decimal(&mut s, MAX_EXT_CHAIN as u64);
            },
            EncodeError::PacketTooLong => {
                s.append("IPv8+ 包总长超过 ");
                text::push_decimal(&mut s, MAX_PACKET_LEN as u64);
            },
            EncodeError::NextHeaderMismatch { expect, got } => {
                s.append("NextHeader 应为 ");
                text::push_decimal(&mut s, *expect as u64);
                s.append("，实际 ");
                text::push_decimal(&mut s, *got as u64);
            },
            EncodeError::FlagMismatch(name) => {
                s.append("标志位 ");
                s.append(name);
                s.append(" 与扩展头链不一致");
            },
            EncodeError::AddressReserved => {
                s.append("IPv8Address.reserved 必须全 0（请用 IPv8Address::new）");
            },
        }
        assert(s@ =~= self.text());
        s
    }
}

impl DecodeError {
    /// What the error says.
    pub open spec fn text(self) -> Seq<char> {
        match self {
            DecodeError::TooShort(n) => "包长 "@ + text::decimal_text(n as nat) + " 字节，不足基础包头 "@ + text::decimal_text(BASE_HEADER_SIZE as nat) + " 字节"@,
            DecodeError::BadVersion(v) => "非法协议版本 0x"@ + text::hex_number(v as nat) + "（必须为 0x8）"@,
            DecodeError::PayloadTooLong(n) => "PayloadLen "@ + text::decimal_text(n as nat) + " 超过协议上限 "@ + text::decimal_text(MAX_PAYLOAD_LEN as nat),
            DecodeError::PayloadBeyondBuffer { need, have } => "声明载荷 "@ + text::decimal_text(need as nat) + " 字节，缓冲区仅剩 "@ + text::decimal_text(have as nat) + " 字节"@,
            DecodeError::PacketTooLong => "IPv8+ 包总长超过 "@ + text::decimal_text(MAX_PACKET_LEN as nat),
            DecodeError::ExtHeaderTruncated => "扩展头链被截断"@,
            DecodeError::TooManyExtHeaders => "扩展头数量超过上限 "@ + text::decimal_text(MAX_EXT_CHAIN as nat),
            DecodeError::ExtLenZero => "扩展头 ExtLen 不得为 0"@,
            DecodeError::ExtChainCycle => "扩展头链存在回路"@,
            DecodeError::FlagMismatch => "HAS_EXTENSION 标志与扩展头链不一致"@,
        }
    }

    /// What the error says.
    pub fn message(&self) -> (s: String)
        ensures
            s@ == self.text(),
    {
        let mut s = String::new();
        match self {
            DecodeError::TooShort(n) => {
                s.append("包长 ");
                text::push_decimal(&mut s, *n as u64);
                s.append(" 字节，不足基础包头 ");
                text::push_decimal(&mut s, BASE_HEADER_SIZE as u64);
                s.append(" 字节");
            },
            DecodeError::BadVersion(v) => {
                s.append("非法协议版本 0x");
                text::push_hex(&mut s, *v as u128);
                s.append("（必须为 0x8）");
            },
            DecodeError::PayloadTooLong(n) => {
                s.append("PayloadLen ");
                text::push_decimal(&mut s, *n as u64);
                s.append(" 超过协议上限 ");
                text::push_decimal(&mut s, MAX_PAYLOAD_LEN as u64);
            },
            DecodeError::PayloadBeyondBuffer { need, have } => {
                s.append("声明载荷 ");
                text::push_decimal(&mut s, *need as u64);
                s.append(" 字节，缓冲区仅剩 ");
                text::push_decimal(&mut s, *have as u64);
                s.append(" 字节");
            },
            DecodeError::PacketTooLong => {
                s.append("IPv8+ 包总长超过 ");
                text::push_decimal(&mut s, MAX_PACKET_LEN as u64);
            },
            DecodeError::ExtHeaderTruncated => {
                s.append("扩展头链被截断");
            },
            DecodeError::TooManyExtHeaders => {
                s.append("扩展头数量超过上限 ");
                text::push_decimal(&mut s, MAX_EXT_CHAIN as u64);
            },
            DecodeError::ExtLenZero => {
                s.append("扩展头 ExtLen 不得为 0");
            },
            DecodeError::ExtChainCycle => {
                s.append("扩展头链存在回路");
            },
            DecodeError::FlagMismatch => {
                s.append("HAS_EXTENSION 标志与扩展头链不一致");
            },
        }
        assert(s@ =~= self.text());
        s
    }
}

impl FragmentError {
    /// What the error says.
    pub open spec fn text(self) -> Seq<char> {
        match self {
            FragmentError::NotAValidPacket(e) => "分片输入非法: "@ + e.text(),
            FragmentError::AlreadyFragmented => "不得对分片包再分片"@,
            FragmentError::LengthMismatch => "载荷长度与包头不一致"@,
            FragmentError::MtuTooSmall(m) => "MTU "@ + text::decimal_text(m as nat) + " 无法容纳任何分片"@,
        }
    }

    /// What the error says.
    pub fn message(&self) -> (s: String)
        ensures
            s@ == self.text(),
    {
        let mut s = String::new();
        match self {
            FragmentError::NotAValidPacket(e) => {
                s.append("分片输入非法: ");
                s.append(e.message().as_str());
            },
            FragmentError::AlreadyFragmented => {
                s.append("不得对分片包再分片");
            },
            FragmentError::LengthMismatch => {
                s.append("载荷长度与包头不一致");
            },
            FragmentError::MtuTooSmall(m) => {
                s.append("MTU ");
                text::push_decimal(&mut s, *m as u64);
                s.append(" 无法容纳任何分片");
            },
        }
        assert(s@ =~= self.text());
        s
    }
}

impl ReassemblyError {
    /// What the error says.
    pub open spec fn text(self) -> Seq<char> {
        match self {
            ReassemblyError::FlagMismatch => "F=1 但链首无 Fragment 头（或 F=0 带 Fragment）"@,
            ReassemblyError::NotFirstExt => "Fragment 头必须是第一个扩展头"@,
            ReassemblyError::Overlap => "分片重叠"@,
            ReassemblyError::BeyondTotal => "分片超出已知总长"@,
            ReassemblyError::Misaligned => "非末片载荷必须 8 字节对齐"@,
            ReassemblyError::Oversize => "重组总长超 "@ + text::decimal_text(MAX_GROUP_BYTES as nat),
            ReassemblyError::OffsetOverflow => "Offset 超出 13 bit 范围"@,
            ReassemblyError::TooManyGroups => "并发重组组数达上限 "@ + text::decimal_text(MAX_GROUPS as nat) + "，拒绝新建组"@,
        }
    }

    /// What the error says.
    pub fn message(&self) -> (s: String)
        ensures
            s@ == self.text(),
    {
        let mut s = String::new();
        match self {
            ReassemblyError::FlagMismatch => {
                s.append("F=1 但链首无 Fragment 头（或 F=0 带 Fragment）");
            },
            ReassemblyError::NotFirstExt => {
                s.append("Fragment 头必须是第一个扩展头");
            },
            ReassemblyError::Overlap => {
                s.append("分片重叠");
            },
            ReassemblyError::BeyondTotal => {
                s.append("分片超出已知总长");
            },
            ReassemblyError::Misaligned => {
                s.append("非末片载荷必须 8 字节对齐");
            },
            ReassemblyError::Oversize => {
                s.append("重组总长超 ");
                text::push_decimal(&mut s, MAX_GROUP_BYTES as u64);
            },
            ReassemblyError::OffsetOverflow => {
                s.append("Offset 超出 13 bit 范围");
            },
            ReassemblyError::TooManyGroups => {
                s.append("并发重组组数达上限 ");
                text::push_decimal(&mut s, MAX_GROUPS as u64);
                s.append("，拒绝新建组");
            },
        }
        assert(s@ =~= self.text());
        s
    }
}

impl LayoutError {
    /// What the error says.
    pub open spec fn text(self) -> Seq<char> {
        match self {
            LayoutError::BadLen => "扩展头载荷长度不符"@,
            LayoutError::RateTooLarge => "TokenBucketRate 超 24 bit"@,
            LayoutError::EmptyHops => "HopCount=0 非法"@,
            LayoutError::TooManyHops => "HopCount 超协议上限 64"@,
            LayoutError::EmptyTags => "能力标签列表为空"@,
            LayoutError::TooManyTags => "能力标签超 32 个上限"@,
            LayoutError::BadTag => "能力标签不合 §6.8 字符/长度规则"@,
            LayoutError::TagsTooLong => "能力标签载荷总长超 1536 字节"@,
        }
    }

    /// What the error says.
    pub fn message(&self) -> (s: String)
        ensures
            s@ == self.text(),
    {
        let mut s = String::new();
        match self {
            LayoutError::BadLen => {
                s.append("扩展头载荷长度不符");
            },
            LayoutError::RateTooLarge => {
                s.append("TokenBucketRate 超 24 bit");
            },
            LayoutError::EmptyHops => {
                s.append("HopCount=0 非法");
            },
            LayoutError::TooManyHops => {
                s.append("HopCount 超协议上限 64");
            },
            LayoutError::EmptyTags => {
                s.append("能力标签列表为空");
            },
            LayoutError::TooManyTags => {
                s.append("能力标签超 32 个上限");
            },
            LayoutError::BadTag => {
                s.append("能力标签不合 §6.8 字符/长度规则");
            },
            LayoutError::TagsTooLong => {
                s.append("能力标签载荷总长超 1536 字节");
            },
        }
        assert(s@ =~= self.text());
        s
    }
}

impl FecError {
    /// What the error says.
    pub open spec fn text(self) -> Seq<char> {
        match self {
            FecError::TooShort(n) => "帧长 "@ + text::decimal_text(n as nat) + " 不足以提取计数器"@,
            FecError::BadK(k) => "组大小 "@ + text::decimal_text(k as nat) + " 超出 2..=16"@,
            FecError::BodyTooShort { need, got } => "恢复帧体 "@ + text::decimal_text(got as nat) + " 字节不足固定段+成员表 "@ + text::decimal_text(need as nat),
            FecError::XorLenMismatch { expect, got } => "xor 段 "@ + text::decimal_text(got as nat) + " 字节 ≠ 成员最大帧长 "@ + text::decimal_text(expect as nat),
            FecError::BadMemberLen(n) => "成员帧长 "@ + text::decimal_text(n as nat) + " 非法"@,
            FecError::SanityCheck => "重建帧自检失败（疑似篡改）"@,
        }
    }

    /// What the error says.
    pub fn message(&self) -> (s: String)
        ensures
            s@ == self.text(),
    {
        let mut s = String::new();
        match self {
            FecError::TooShort(n) => {
                s.append("帧长 ");
                text::push_decimal(&mut s, *n as u64);
                s.append(" 不足以提取计数器");
            },
            FecError::BadK(k) => {
                s.append("组大小 ");
                text::push_decimal(&mut s, *k as u64);
                s.append(" 超出 2..=16");
            },
            FecError::BodyTooShort { need, got } => {
                s.append("恢复帧体 ");
                text::push_decimal(&mut s, *got as u64);
                s.append(" 字节不足固定段+成员表 ");
                text::push_decimal(&mut s, *need as u64);
            },
            FecError::XorLenMismatch { expect, got } => {
                s.append("xor 段 ");
                text::push_decimal(&mut s, *got as u64);
                s.append(" 字节 ≠ 成员最大帧长 ");
                text::push_decimal(&mut s, *expect as u64);
            },
            FecError::BadMemberLen(n) => {
                s.append("成员帧长 ");
                text::push_decimal(&mut s, *n as u64);
                s.append(" 非法");
            },
            FecError::SanityCheck => {
                s.append("重建帧自检失败（疑似篡改）");
            },
        }
        assert(s@ =~= self.text());
        s
    }
}

impl ZoneError {
    /// What the error says.
    pub open spec fn text(self) -> Seq<char> {
        match self {
            ZoneError::BadAddress => "地址文本必须是 32 个十六进制数字"@,
            ZoneError::BadKeyLength => "公钥需 32 字节、签名需 64 字节"@,
            ZoneError::BadProof => "PoP 签名验证失败（非该密钥持有者或内容不符）"@,
            ZoneError::AlreadyRegistered { addr } => "地址 "@ + text::hex_text(addr.bytes()) + " 已注册"@,
            ZoneError::NotRegistered { addr } => "地址 "@ + text::hex_text(addr.bytes()) + " 未注册"@,
            ZoneError::BadToken => "JWT 签名/格式无效"@,
            ZoneError::TokenExpired { exp, now } => "JWT 已过期: exp="@ + text::decimal_text(exp as nat) + " now="@ + text::decimal_text(now as nat),
            ZoneError::TokenMismatch => "JWT 的 sub 与该地址注册记录不符"@,
        }
    }

    /// What the error says.
    pub fn message(&self) -> (s: String)
        ensures
            s@ == self.text(),
    {
        let mut s = String::new();
        match self {
            ZoneError::BadAddress => {
                s.append("地址文本必须是 32 个十六进制数字");
            },
            ZoneError::BadKeyLength => {
                s.append("公钥需 32 字节、签名需 64 字节");
            },
            ZoneError::BadProof => {
                s.append("PoP 签名验证失败（非该密钥持有者或内容不符）");
            },
            ZoneError::AlreadyRegistered { addr } => {
                s.append("地址 ");
                s.append(addr.to_canonical_string().as_str());
                s.append(" 已注册");
            },
            ZoneError::NotRegistered { addr } => {
                s.append("地址 ");
                s.append(addr.to_canonical_string().as_str());
                s.append(" 未注册");
            },
            ZoneError::BadToken => {
                s.append("JWT 签名/格式无效");
            },
            ZoneError::TokenExpired { exp, now } => {
                s.append("JWT 已过期: exp=");
                text::push_decimal(&mut s, *exp as u64);
                s.append(" now=");
                text::push_decimal(&mut s, *now as u64);
            },
            ZoneError::TokenMismatch => {
                s.append("JWT 的 sub 与该地址注册记录不符");
            },
        }
        assert(s@ =~= self.text());
        s
    }
}

impl ResolveError {
    /// What the error says.
    pub open spec fn text(self) -> Seq<char> {
        match self {
            ResolveError::BadAddress => "目标地址文本非法"@,
            ResolveError::NotFound => "未登记或已过期"@,
            ResolveError::BadProof => "登记 PoP 验证失败"@,
            ResolveError::KeyConflict { addr } => "地址 "@ + text::hex_text(addr.bytes()) + " 已绑定其他公钥"@,
        }
    }

    /// What the error says.
    pub fn message(&self) -> (s: String)
        ensures
            s@ == self.text(),
    {
        let mut s = String::new();
        match self {
            ResolveError::BadAddress => {
                s.append("目标地址文本非法");
            },
            ResolveError::NotFound => {
                s.append("未登记或已过期");
            },
            ResolveError::BadProof => {
                s.append("登记 PoP 验证失败");
            },
            ResolveError::KeyConflict { addr } => {
                s.append("地址 ");
                s.append(addr.to_canonical_string().as_str());
                s.append(" 已绑定其他公钥");
            },
        }
        assert(s@ =~= self.text());
        s
    }
}

impl AnsError {
    /// What the error says.
    pub open spec fn text(self) -> Seq<char> {
        match self {
            AnsError::BadName => "名称不合法（须以命名空间根结尾且 ≤255）"@,
            AnsError::BadAddress => "地址文本非法"@,
            AnsError::BadTags => "能力标签不合 §6.8"@,
            AnsError::BadCard => "卡片结构非法或 CardSig 不匹配哈希"@,
            AnsError::BadProof => "登记 PoP 验签失败"@,
            AnsError::BadCert => "证书不满足信任锚/有效期"@,
            AnsError::KeyConflict => "地址已绑定其他公钥"@,
            AnsError::NameConflict => "名称已被占用"@,
            AnsError::NotFound => "未登记或已过期"@,
            AnsError::Insufficient { wanted, got } => "候选不足：需 "@ + text::decimal_text(wanted as nat) + "，得 "@ + text::decimal_text(got as nat),
        }
    }

    /// What the error says.
    pub fn message(&self) -> (s: String)
        ensures
            s@ == self.text(),
    {
        let mut s = String::new();
        match self {
            AnsError::BadName => {
                s.append("名称不合法（须以命名空间根结尾且 ≤255）");
            },
            AnsError::BadAddress => {
                s.append("地址文本非法");
            },
            AnsError::BadTags => {
                s.append("能力标签不合 §6.8");
            },
            AnsError::BadCard => {
                s.append("卡片结构非法或 CardSig 不匹配哈希");
            },
            AnsError::BadProof => {
                s.append("登记 PoP 验签失败");
            },
            AnsError::BadCert => {
                s.append("证书不满足信任锚/有效期");
            },
            AnsError::KeyConflict => {
                s.append("地址已绑定其他公钥");
            },
            AnsError::NameConflict => {
                s.append("名称已被占用");
            },
            AnsError::NotFound => {
                s.append("未登记或已过期");
            },
            AnsError::Insufficient { wanted, got } => {
                s.append("候选不足：需 ");
                text::push_decimal(&mut s, *wanted as u64);
                s.append("，得 ");
                text::push_decimal(&mut s, *got as u64);
            },
        }
        assert(s@ =~= self.text());
        s
    }
}

/// What is said of errors with texts of addresses, where no number goes with it.
pub proof fn addr_parse_error_texts()
    ensures
        AddrParseError::Format.text() == "IPv8+ 地址文本必须是 32 个十六进制数字（无分隔符）"@,
        AddrParseError::ReservedNonZero.text() == "IPv8+ 地址 Reserved 位必须全 0（spec §2.2）"@,
{
}

/// What is said of errors with headers that cannot be written, where no number goes with it.
pub proof fn encode_error_texts()
    ensures
        EncodeError::ReservedBits.text() == "Flags 保留位必须为 0"@,
        EncodeError::AddressReserved.text() == "IPv8Address.reserved 必须全 0（请用 IPv8Address::new）"@,
{
}

/// What is said of errors with packets that cannot be read, where no number goes with it.
pub proof fn decode_error_texts()
    ensures
        DecodeError::ExtHeaderTruncated.text() == "扩展头链被截断"@,
        DecodeError::ExtLenZero.text() == "扩展头 ExtLen 不得为 0"@,
        DecodeError::ExtChainCycle.text() == "扩展头链存在回路"@,
        DecodeError::FlagMismatch.text() == "HAS_EXTENSION 标志与扩展头链不一致"@,
{
}

/// What is said of errors with packets that cannot be cut, where no number goes with it.
pub proof fn fragment_error_texts()
    ensures
        FragmentError::AlreadyFragmented.text() == "不得对分片包再分片"@,
        FragmentError::LengthMismatch.text() == "载荷长度与包头不一致"@,
{
}

/// What is said of errors with fragments that are refused, where no number goes with it.
pub proof fn reassembly_error_texts()
    ensures
        ReassemblyError::FlagMismatch.text() == "F=1 但链首无 Fragment 头（或 F=0 带 Fragment）"@,
        ReassemblyError::NotFirstExt.text() == "Fragment 头必须是第一个扩展头"@,
        ReassemblyError::Overlap.text() == "分片重叠"@,
        ReassemblyError::BeyondTotal.text() == "分片超出已知总长"@,
        ReassemblyError::Misaligned.text() == "非末片载荷必须 8 字节对齐"@,
        ReassemblyError::OffsetOverflow.text() == "Offset 超出 13 bit 范围"@,
{
}

/// What is said of errors with payloads of extensions, where no number goes with it.
pub proof fn layout_error_texts()
    ensures
        LayoutError::BadLen.text() == "扩展头载荷长度不符"@,
        LayoutError::RateTooLarge.text() == "TokenBucketRate 超 24 bit"@,
        LayoutError::EmptyHops.text() == "HopCount=0 非法"@,
        LayoutError::TooManyHops.text() == "HopCount 超协议上限 64"@,
        LayoutError::EmptyTags.text() == "能力标签列表为空"@,
        LayoutError::TooManyTags.text() == "能力标签超 32 个上限"@,
        LayoutError::BadTag.text() == "能力标签不合 §6.8 字符/长度规则"@,
        LayoutError::TagsTooLong.text() == "能力标签载荷总长超 1536 字节"@,
{
}

/// What is said of errors with frames, where no number goes with it.
pub proof fn fec_error_texts()
    ensures
        FecError::SanityCheck.text() == "重建帧自检失败（疑似篡改）"@,
{
}

/// What is said of errors with requests to a zone server, where no number goes with it.
pub proof fn zone_error_texts()
    ensures
        ZoneError::BadAddress.text() == "地址文本必须是 32 个十六进制数字"@,
        ZoneError::BadKeyLength.text() == "公钥需 32 字节、签名需 64 字节"@,
        ZoneError::BadProof.text() == "PoP 签名验证失败（非该密钥持有者或内容不符）"@,
        ZoneError::BadToken.text() == "JWT 签名/格式无效"@,
        ZoneError::TokenMismatch.text() == "JWT 的 sub 与该地址注册记录不符"@,
{
}

/// What is said of errors with requests to a resolver, where no number goes with it.
pub proof fn resolve_error_texts()
    ensures
        ResolveError::BadAddress.text() == "目标地址文本非法"@,
        ResolveError::NotFound.text() == "未登记或已过期"@,
        ResolveError::BadProof.text() == "登记 PoP 验证失败"@,
{
}

/// What is said of errors with requests to the name service, where no number goes with it.
pub proof fn ans_error_texts()
    ensures
        AnsError::BadName.text() == "名称不合法（须以命名空间根结尾且 ≤255）"@,
        AnsError::BadAddress.text() == "地址文本非法"@,
        AnsError::BadTags.text() == "能力标签不合 §6.8"@,
        AnsError::BadCard.text() == "卡片结构非法或 CardSig 不匹配哈希"@,
        AnsError::BadProof.text() == "登记 PoP 验签失败"@,
        AnsError::BadCert.text() == "证书不满足信任锚/有效期"@,
        AnsError::KeyConflict.text() == "地址已绑定其他公钥"@,
        AnsError::NameConflict.text() == "名称已被占用"@,
        AnsError::NotFound.text() == "未登记或已过期"@,
{
}

} // verus!
