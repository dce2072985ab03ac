//! What errors say.

use ipv8plus::ans::card::AnsError;
use ipv8plus::codec::decode::DecodeError;
use ipv8plus::codec::encode::EncodeError;
use ipv8plus::codec::fragment::FragmentError;
use ipv8plus::codec::header::{AddrParseError, IPv8Address};
use ipv8plus::codec::layouts::LayoutError;
use ipv8plus::codec::reassembly::ReassemblyError;
use ipv8plus::fec::FecError;
use ipv8plus::resolver::service::ResolveError;
use ipv8plus::zone::ZoneError;

fn addr() -> IPv8Address {
    IPv8Address::new(0xfb14_0000, 7, 1, 0, 1)
}

#[test]
fn codec_errors_speak() {
    assert_eq!(AddrParseError::ReservedNonZero.message(), "IPv8+ 地址 Reserved 位必须全 0（spec §2.2）");
    assert_eq!(EncodeError::BadVersion(7).message(), "非法协议版本 0x7（必须为 0x8）");
    assert_eq!(EncodeError::FieldOverflow("x").message(), "字段 x 溢出");
    assert_eq!(EncodeError::PayloadTooLong(65500).message(), "PayloadLen 65500 超过协议上限 65467");
    let m = EncodeError::PayloadLengthMismatch { header: 3, actual: 4 };
    assert_eq!(m.message(), "包头 PayloadLen(3) 与实际载荷长度(4)不一致");
    assert_eq!(EncodeError::NextHeaderMismatch { expect: 1, got: 2 }.message(), "NextHeader 应为 1，实际 2");
    assert_eq!(DecodeError::TooShort(39).message(), "包长 39 字节，不足基础包头 40 字节");
    let m = DecodeError::PayloadBeyondBuffer { need: 10, have: 3 };
    assert_eq!(m.message(), "声明载荷 10 字节，缓冲区仅剩 3 字节");
    assert_eq!(
        FragmentError::NotAValidPacket(DecodeError::ExtHeaderTruncated).message(),
        "分片输入非法: 扩展头链被截断"
    );
    assert_eq!(FragmentError::MtuTooSmall(50).message(), "MTU 50 无法容纳任何分片");
    assert_eq!(ReassemblyError::TooManyGroups.message(), "并发重组组数达上限 64，拒绝新建组");
    assert_eq!(ReassemblyError::Oversize.message(), "重组总长超 65467");
    assert_eq!(LayoutError::BadTag.message(), "能力标签不合 §6.8 字符/长度规则");
    assert_eq!(LayoutError::TagsTooLong.message(), "能力标签载荷总长超 1536 字节");
}

#[test]
fn other_errors_speak() {
    assert_eq!(FecError::TooShort(9).message(), "帧长 9 不足以提取计数器");
    assert_eq!(FecError::BadK(1).message(), "组大小 1 超出 2..=16");
    let m = FecError::BodyTooShort { need: 20, got: 12 };
    assert_eq!(m.message(), "恢复帧体 12 字节不足固定段+成员表 20");
    let m = FecError::XorLenMismatch { expect: 80, got: 79 };
    assert_eq!(m.message(), "xor 段 79 字节 ≠ 成员最大帧长 80");
    let text = "fb140000000000070001000001000000";
    assert_eq!(ZoneError::AlreadyRegistered { addr: addr() }.message(), format!("地址 {text} 已注册"));
    assert_eq!(ZoneError::NotRegistered { addr: addr() }.message(), format!("地址 {text} 未注册"));
    assert_eq!(ZoneError::TokenExpired { exp: 5, now: 6 }.message(), "JWT 已过期: exp=5 now=6");
    assert_eq!(ResolveError::KeyConflict { addr: addr() }.message(), format!("地址 {text} 已绑定其他公钥"));
    assert_eq!(ResolveError::NotFound.message(), "未登记或已过期");
    assert_eq!(AnsError::Insufficient { wanted: 3, got: 1 }.message(), "候选不足：需 3，得 1");
    assert_eq!(AnsError::BadTags.message(), "能力标签不合 §6.8");
    assert_eq!(AnsError::BadName.message(), "名称不合法（须以命名空间根结尾且 ≤255）");
}
