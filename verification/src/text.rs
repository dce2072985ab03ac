//! Text: hexadecimal digits and ASCII.

use vstd::prelude::*;

verus! {

/// `String::push` of std: the character is appended.
pub assume_specification[ String::push ](s: &mut String, c: char)
    ensures
        final(s)@ == old(s)@.push(c),
;

/// Whether `c` is a hexadecimal digit of either case.
pub open spec fn is_hex(c: char) -> bool {
    '0' <= c <= '9' || 'a' <= c <= 'f' || 'A' <= c <= 'F'
}

/// Whether every character is a hexadecimal digit.
pub open spec fn all_hex(t: Seq<char>) -> bool {
    forall|i: int| 0 <= i < t.len() ==> is_hex(#[trigger] t[i])
}

/// The value of a hexadecimal digit, 0 for any other character.
pub open spec fn hex_value(c: char) -> u8 {
    if '0' <= c <= '9' {
        (c as u8 - '0' as u8) as u8
    } else if 'a' <= c <= 'f' {
        (c as u8 - 'a' as u8 + 10) as u8
    } else if 'A' <= c <= 'F' {
        (c as u8 - 'A' as u8 + 10) as u8
    } else {
        0
    }
}

/// The lower-case digit of a value below 16.
pub open spec fn hex_char(v: u8) -> char {
    if v < 10 {
        ('0' as u8 + v) as char
    } else {
        ('a' as u8 + v - 10) as char
    }
}

/// The bytes that pairs of hexadecimal digits stand for.
pub open spec fn hex_bytes(t: Seq<char>) -> Seq<u8> {
    Seq::new(t.len() / 2, |i: int| (hex_value(t[2 * i]) * 16 + hex_value(t[2 * i + 1])) as u8)
}

/// Two lower-case hexadecimal digits for each byte.
pub open spec fn hex_text(b: Seq<u8>) -> Seq<char> {
    Seq::new(
        2 * b.len(),
        |i: int|
            if i % 2 == 0 {
                hex_char(b[i / 2] / 16)
            } else {
                hex_char(b[i / 2] % 16)
            },
    )
}

/// `c` in lower case, for an ASCII letter; any other character as it is.
pub open spec fn lower(c: char) -> char {
    if 'A' <= c <= 'Z' {
        (c as u8 + 32) as char
    } else {
        c
    }
}

/// Whether two texts differ in the case of ASCII letters at most.
pub open spec fn same_ignoring_case(a: Seq<char>, b: Seq<char>) -> bool {
    a.len() == b.len() && forall|i: int| 0 <= i < a.len() ==> lower(#[trigger] a[i]) == lower(b[i])
}

/// The bytes of a hexadecimal text, in either case, are those it was made of.
pub proof fn hex_round_trip(b: Seq<u8>, t: Seq<char>)
    requires
        same_ignoring_case(t, hex_text(b)),
    ensures
        t.len() == 2 * b.len(),
        all_hex(t),
        hex_bytes(t) == b,
{
    let h = hex_text(b);
    assert forall|i: int| 0 <= i < t.len() implies is_hex(#[trigger] t[i]) && hex_value(t[i]) == (if i % 2 == 0 {
        b[i / 2] / 16
    } else {
        b[i / 2] % 16
    }) by {
        assert(lower(t[i]) == lower(h[i]));
    }
    assert forall|i: int| 0 <= i < b.len() implies #[trigger] hex_bytes(t)[i] == b[i] by {
        assert(hex_value(t[2 * i]) == b[i] / 16);
        assert(hex_value(t[2 * i + 1]) == b[i] % 16);
    }
    assert(hex_bytes(t) =~= b);
}

/// Hexadecimal text is ASCII.
pub proof fn hex_text_is_ascii(b: Seq<u8>)
    ensures
        vstd::utf8::is_ascii_chars(hex_text(b)),
{
    let t = hex_text(b);
    assert forall|i: int| 0 <= i < t.len() implies 0 <= #[trigger] t[i] < 128 by {
        assert(b[i / 2] / 16 < 16 && b[i / 2] % 16 < 16);
    }
}

/// The lower-case digit of a value below 16.
pub fn hex_digit(v: u8) -> (c: char)
    requires
        v < 16,
    ensures
        c == hex_char(v),
{
    match v {
        0 => '0',
        1 => '1',
        2 => '2',
        3 => '3',
        4 => '4',
        5 => '5',
        6 => '6',
        7 => '7',
        8 => '8',
        9 => '9',
        10 => 'a',
        11 => 'b',
        12 => 'c',
        13 => 'd',
        14 => 'e',
        _ => 'f',
    }
}

/// The value of a hexadecimal digit, 0 for any other byte.
pub fn hex_val(b: u8) -> (v: u8)
    requires
        b < 128,
    ensures
        v == hex_value(b as char),
{
    if 48 <= b && b <= 57 {
        b - 48
    } else if 97 <= b && b <= 102 {
        b - 97 + 10
    } else if 65 <= b && b <= 70 {
        b - 65 + 10
    } else {
        0
    }
}

/// Whether an ASCII byte is a hexadecimal digit.
pub fn hex_byte(b: u8) -> (r: bool)
    requires
        b < 128,
    ensures
        r == is_hex(b as char),
{
    (48 <= b && b <= 57) || (97 <= b && b <= 102) || (65 <= b && b <= 70)
}

/// Bytes as lower-case hexadecimal text.
pub fn hex_string(b: &[u8]) -> (s: String)
    ensures
        s@ == hex_text(b@),
{
    let mut s = String::new();
    let mut i: usize = 0;
    while i < b.len()
        invariant
            i <= b.len(),
            s@ == hex_text(b@.subrange(0, i as int)),
        decreases b.len() - i,
    {
        s.push(hex_digit(b[i] / 16));
        s.push(hex_digit(b[i] % 16));
        i = i + 1;
        proof {
            let p = b@.subrange(0, i as int);
            assert forall|j: int| 0 <= j < 2 * i implies s@[j] == #[trigger] hex_text(p)[j] by {
                if j < 2 * i - 2 {
                    assert(hex_text(b@.subrange(0, i - 1))[j] == hex_text(p)[j]);
                }
            }
            assert(s@ =~= hex_text(p));
        }
    }
    assert(b@.subrange(0, i as int) =~= b@);
    s
}

/// The bytes of a text of hexadecimal digits, in either case; `None` for a
/// text of odd length or with any other character.
pub fn unhex(s: &str) -> (r: Option<Vec<u8>>)
    ensures
        match r {
            Some(b) => s@.len() % 2 == 0 && all_hex(s@) && b@ == hex_bytes(s@),
            None => s@.len() % 2 != 0 || !all_hex(s@),
        },
{
    if !s.is_ascii() {
        return None;
    }
    let t: &[u8] = s.as_bytes();
    assert(t@ =~= Seq::new(s@.len(), |i: int| s@[i] as u8));
    if t.len() % 2 != 0 {
        return None;
    }
    let mut b: Vec<u8> = Vec::new();
    let mut i: usize = 0;
    while i < t.len()
        invariant
            i <= t.len(),
            i % 2 == 0,
            t.len() % 2 == 0,
            t@.len() == s@.len(),
            s.is_ascii(),
            forall|j: int| 0 <= j < s@.len() ==> #[trigger] t@[j] == s@[j] as u8,
            forall|j: int| 0 <= j < i ==> is_hex(#[trigger] s@[j]),
            b@ == hex_bytes(s@.subrange(0, i as int)),
        decreases t.len() - i,
    {
        assert(t@[i as int] == s@[i as int] as u8 && t@[i + 1] == s@[i + 1] as u8);
        assert(t@[i as int] < 128 && t@[i + 1] < 128);
        if !hex_byte(t[i]) || !hex_byte(t[i + 1]) {
            assert(!is_hex(s@[i as int]) || !is_hex(s@[i + 1]));
            return None;
        }
        b.push(hex_val(t[i]) * 16 + hex_val(t[i + 1]));
        i = i + 2;
        assert(b@ =~= hex_bytes(s@.subrange(0, i as int)));
    }
    assert(s@.subrange(0, i as int) =~= s@);
    Some(b)
}

/// A text with its ASCII letters in lower case.
pub open spec fn lowered(t: Seq<char>) -> Seq<char> {
    t.map_values(|c: char| lower(c))
}

/// Whether `p` is the beginning of `t`.
pub open spec fn begins_with(t: Seq<char>, p: Seq<char>) -> bool {
    p.len() <= t.len() && t.subrange(0, p.len() as int) == p
}

/// Whether every character is ASCII.
pub open spec fn all_ascii(t: Seq<char>) -> bool {
    vstd::utf8::is_ascii_chars(t)
}

/// The bytes of an ASCII text are its characters.
pub proof fn ascii_bytes(s: &str)
    requires
        all_ascii(s@),
    ensures
        vstd::utf8::encode_utf8(s@).len() == s@.len(),
        forall|i: int| 0 <= i < s@.len() ==> (#[trigger] vstd::utf8::encode_utf8(s@)[i]) == (s@[i] as u8) && s@[i] == (vstd::utf8::encode_utf8(s@)[i] as char),
        forall|i: int| 0 <= i < s@.len() ==> (#[trigger] s@[i]) as int <= 127,
{
    vstd::utf8::is_ascii_chars_encode_utf8(s@);
}

/// Whether two texts are the same.
pub fn same_text(a: &str, b: &str) -> (r: bool)
    ensures
        r == (a@ == b@),
{
    let r = crate::wire::same_bytes(a.as_bytes(), b.as_bytes());
    proof {
        vstd::utf8::encode_utf8_decode_utf8(a@);
        vstd::utf8::encode_utf8_decode_utf8(b@);
    }
    r
}

/// An ASCII byte in lower case.
fn lower_byte(b: u8) -> (r: u8)
    requires
        b < 128,
    ensures
        r < 128,
        r as char == lower(b as char),
{
    if 65 <= b && b <= 90 {
        b + 32
    } else {
        b
    }
}

/// Whether a text in lower case is the ASCII text `t`.
pub fn lower_is(s: &str, t: &str) -> (r: bool)
    requires
        all_ascii(t@),
    ensures
        r == (lowered(s@) == t@),
{
    if !s.is_ascii() {
        proof {
            if lowered(s@) == t@ {
                assert forall|i: int| 0 <= i < s@.len() implies 0 <= #[trigger] s@[i] < 128 by {
                    assert(lowered(s@)[i] == t@[i]);
                }
            }
        }
        return false;
    }
    let a: &[u8] = s.as_bytes();
    let b: &[u8] = t.as_bytes();
    proof {
        ascii_bytes(s);
        ascii_bytes(t);
    }
    if a.len() != b.len() {
        return false;
    }
    let mut i: usize = 0;
    while i < a.len()
        invariant
            i <= a.len(),
            a@.len() == b@.len() == s@.len() == t@.len(),
            a@ == vstd::utf8::encode_utf8(s@),
            b@ == vstd::utf8::encode_utf8(t@),
            all_ascii(s@),
            all_ascii(t@),
            forall|j: int| 0 <= j < i ==> lower(#[trigger] s@[j]) == t@[j],
        decreases a.len() - i,
    {
        proof {
            ascii_bytes(s);
            ascii_bytes(t);
            assert(a@[i as int] == s@[i as int] as u8 && b@[i as int] == t@[i as int] as u8);
            assert(s@[i as int] == a@[i as int] as char && t@[i as int] == b@[i as int] as char);
        }
        if lower_byte(a[i]) != b[i] {
            assert(lowered(s@)[i as int] != t@[i as int]);
            return false;
        }
        i = i + 1;
    }
    assert(lowered(s@) =~= t@);
    true
}

/// Whether an ASCII text begins with `p` in lower case.
pub fn begins_with_lower(t: &str, p: &str) -> (r: bool)
    requires
        all_ascii(t@),
    ensures
        r == begins_with(t@, lowered(p@)),
{
    if !p.is_ascii() {
        proof {
            let q = lowered(p@);
            if begins_with(t@, q) {
                assert forall|i: int| 0 <= i < p@.len() implies 0 <= #[trigger] p@[i] < 128 by {
                    assert(q[i] == t@.subrange(0, q.len() as int)[i]);
                    assert(0 <= t@[i] < 128);
                }
            }
        }
        return false;
    }
    let a: &[u8] = t.as_bytes();
    let b: &[u8] = p.as_bytes();
    proof {
        ascii_bytes(t);
        ascii_bytes(p);
    }
    if b.len() > a.len() {
        return false;
    }
    let mut i: usize = 0;
    while i < b.len()
        invariant
            i <= b.len() <= a.len(),
            a@.len() == t@.len(),
            b@.len() == p@.len(),
            a@ == vstd::utf8::encode_utf8(t@),
            b@ == vstd::utf8::encode_utf8(p@),
            all_ascii(t@),
            all_ascii(p@),
            forall|j: int| 0 <= j < i ==> lower(#[trigger] p@[j]) == t@[j],
        decreases b.len() - i,
    {
        proof {
            ascii_bytes(t);
            ascii_bytes(p);
            assert(a@[i as int] == t@[i as int] as u8 && b@[i as int] == p@[i as int] as u8);
            assert(t@[i as int] == a@[i as int] as char && p@[i as int] == b@[i as int] as char);
        }
        if lower_byte(b[i]) != a[i] {
            assert(t@.subrange(0, p@.len() as int)[i as int] != lowered(p@)[i as int]);
            return false;
        }
        i = i + 1;
    }
    assert(t@.subrange(0, p@.len() as int) =~= lowered(p@));
    true
}

/// Whether every character is a decimal digit.
pub open spec fn all_digits(t: Seq<char>) -> bool {
    forall|i: int| 0 <= i < t.len() ==> '0' <= #[trigger] t[i] <= '9'
}

/// The number that decimal digits stand for.
pub open spec fn decimal_value(t: Seq<char>) -> nat
    decreases t.len(),
{
    if t.len() == 0 {
        0
    } else {
        decimal_value(t.drop_last()) * 10 + (t.last() as nat - '0' as nat) as nat
    }
}

/// A text without a plus sign at its beginning.
pub open spec fn unsigned_part(t: Seq<char>) -> Seq<char> {
    if t.len() > 0 && t[0] == '+' {
        t.subrange(1, t.len() as int)
    } else {
        t
    }
}

/// The number that a text stands for: decimal digits, with or without a plus
/// sign, of a number up to `max`.
pub open spec fn number_of(t: Seq<char>, max: nat) -> Option<nat> {
    let d = unsigned_part(t);
    if d.len() > 0 && all_digits(d) && decimal_value(d) <= max {
        Some(decimal_value(d))
    } else {
        None
    }
}

/// More digits make no lesser number.
proof fn decimal_grows(t: Seq<char>, n: int)
    requires
        0 <= n <= t.len(),
    ensures
        decimal_value(t.subrange(0, n)) <= decimal_value(t),
    decreases t.len() - n,
{
    if n < t.len() {
        decimal_grows(t, n + 1);
        assert(t.subrange(0, n + 1).drop_last() =~= t.subrange(0, n));
    } else {
        assert(t.subrange(0, n) =~= t);
    }
}

/// Reads a decimal number up to `max`.
pub fn parse_number(s: &str, max: u64) -> (r: Option<u64>)
    ensures
        match r {
            Some(n) => number_of(s@, max as nat) == Some(n as nat),
            None => number_of(s@, max as nat) is None,
        },
{
    let ghost d = unsigned_part(s@);
    if !s.is_ascii() {
        proof {
            if all_digits(d) {
                assert forall|i: int| 0 <= i < s@.len() implies 0 <= #[trigger] s@[i] < 128 by {
                    if s@[0] == '+' && i > 0 {
                        assert(d[i - 1] == s@[i]);
                    } else if s@[0] != '+' {
                        assert(d[i] == s@[i]);
                    }
                }
            }
        }
        return None;
    }
    let b: &[u8] = s.as_bytes();
    proof {
        ascii_bytes(s);
    }
    let from: usize = if b.len() > 0 && b[0] == 43 {
        1
    } else {
        0
    };
    proof {
        if s@.len() > 0 {
            assert(b@[0] == s@[0] as u8 && s@[0] == b@[0] as char);
        }
        assert(d == s@.subrange(from as int, s@.len() as int)) by {
            assert(s@.subrange(0, s@.len() as int) =~= s@);
        }
    }
    if b.len() == from {
        return None;
    }
    let mut n: u64 = 0;
    let mut i: usize = from;
    assert(d.subrange(0, 0) =~= Seq::empty());
    while i < b.len()
        invariant
            from <= i <= b.len(),
            b@.len() == s@.len(),
            b@ == vstd::utf8::encode_utf8(s@),
            all_ascii(s@),
            d == s@.subrange(from as int, s@.len() as int),
            d == unsigned_part(s@),
            d.len() > 0,
            n <= max,
            n == decimal_value(d.subrange(0, i - from)),
            forall|j: int| 0 <= j < i - from ==> '0' <= #[trigger] d[j] <= '9',
        decreases b.len() - i,
    {
        proof {
            ascii_bytes(s);
            assert(b@[i as int] == s@[i as int] as u8 && s@[i as int] == b@[i as int] as char);
            assert(d[i - from] == s@[i as int]);
        }
        let c: u8 = b[i];
        if c < 48 || c > 57 {
            return None;
        }
        let v: u64 = (c - 48) as u64;
        proof {
            let k = i - from;
            assert(d.subrange(0, k + 1).drop_last() =~= d.subrange(0, k));
            assert(decimal_value(d.subrange(0, k + 1)) == n * 10 + v);
            decimal_grows(d, k + 1);
        }
        if n > (max - if v <= max { v } else { max }) / 10 || v > max {
            return None;
        }
        n = n * 10 + v;
        i = i + 1;
    }
    assert(d.subrange(0, i - from) =~= d);
    Some(n)
}

/// The hexadecimal digits of a number, without zeros before them.
pub open spec fn hex_number(n: nat) -> Seq<char>
    decreases n,
{
    if n < 16 {
        seq![hex_char(n as u8)]
    } else {
        hex_number(n / 16).push(hex_char((n % 16) as u8))
    }
}

/// Appends the hexadecimal digits of a number.
pub fn push_hex(s: &mut String, n: u128)
    ensures
        final(s)@ == old(s)@ + hex_number(n as nat),
    decreases n,
{
    if n >= 16 {
        push_hex(s, n / 16);
    }
    s.push(hex_digit((n % 16) as u8));
    assert(s@ =~= old(s)@ + hex_number(n as nat));
}

/// The decimal digits of a number, without zeros before them.
pub open spec fn decimal_text(n: nat) -> Seq<char>
    decreases n,
{
    if n < 10 {
        seq![hex_char(n as u8)]
    } else {
        decimal_text(n / 10).push(hex_char((n % 10) as u8))
    }
}

/// Appends the decimal digits of a number.
pub fn push_decimal(s: &mut String, n: u64)
    ensures
        final(s)@ == old(s)@ + decimal_text(n as nat),
    decreases n,
{
    if n >= 10 {
        push_decimal(s, n / 10);
    }
    s.push(hex_digit((n % 10) as u8));
    assert(s@ =~= old(s)@ + decimal_text(n as nat));
}

/// Decimal digits are ASCII.
pub proof fn decimal_is_ascii(n: nat)
    ensures
        all_digits(decimal_text(n)),
        all_ascii(decimal_text(n)),
    decreases n,
{
    if n >= 10 {
        decimal_is_ascii(n / 10);
    }
}

/// The contents of texts.
pub open spec fn texts(s: Seq<String>) -> Seq<Seq<char>> {
    Seq::new(s.len(), |i: int| s[i]@)
}

/// A copy of texts.
pub fn copy_texts(v: &Vec<String>) -> (r: Vec<String>)
    ensures
        texts(r@) == texts(v@),
{
    copy_slice(v.as_slice())
}

/// A copy of texts.
pub fn copy_slice(v: &[String]) -> (r: Vec<String>)
    ensures
        texts(r@) == texts(v@),
{
    let mut r: Vec<String> = Vec::new();
    let mut i: usize = 0;
    while i < v.len()
        invariant
            i <= v.len(),
            r@.len() == i,
            forall|j: int| 0 <= j < i ==> (#[trigger] r@[j])@ == v@[j]@,
        decreases v.len() - i,
    {
        r.push(v[i].clone());
        i = i + 1;
    }
    assert(texts(r@) =~= texts(v@));
    r
}

/// Whether a text is among others.
pub fn has_text(v: &Vec<String>, t: &str) -> (r: bool)
    ensures
        r == texts(v@).contains(t@),
{
    let mut i: usize = 0;
    while i < v.len()
        invariant
            i <= v.len(),
            forall|j: int| 0 <= j < i ==> #[trigger] texts(v@)[j] != t@,
        decreases v.len() - i,
    {
        if same_text(v[i].as_str(), t) {
            assert(texts(v@)[i as int] == t@);
            return true;
        }
        i = i + 1;
    }
    false
}

/// The characters of a text.
pub fn chars_of(s: &str) -> (v: Vec<char>)
    ensures
        v@ == s@,
{
    let mut v: Vec<char> = Vec::new();
    for c in it: s.chars()
        invariant
            v@ == it.seq().subrange(0, it.index() as int),
            it.seq() == s@,
    {
        v.push(c);
    }
    assert(v@ =~= s@);
    v
}

/// The text of some characters of a list.
pub fn text_of(v: &Vec<char>, from: usize, to: usize) -> (s: String)
    requires
        from <= to <= v.len(),
    ensures
        s@ == v@.subrange(from as int, to as int),
{
    let mut s = String::new();
    let mut i: usize = from;
    while i < to
        invariant
            from <= i <= to <= v.len(),
            s@ == v@.subrange(from as int, i as int),
        decreases to - i,
    {
        s.push(v[i]);
        i = i + 1;
        assert(s@ =~= v@.subrange(from as int, i as int));
    }
    s
}

/// Whether a text stands before another in the order of their characters.
pub open spec fn before(a: Seq<char>, b: Seq<char>) -> bool
    decreases a.len(),
{
    if b.len() == 0 {
        false
    } else if a.len() == 0 {
        true
    } else if a[0] != b[0] {
        a[0] < b[0]
    } else {
        before(a.drop_first(), b.drop_first())
    }
}

/// Of two different texts one stands before the other, and not the other way
/// round.
pub proof fn before_is_total(a: Seq<char>, b: Seq<char>)
    ensures
        a != b ==> before(a, b) || before(b, a),
        !(before(a, b) && before(b, a)),
        a == b ==> !before(a, b),
    decreases a.len(),
{
    if a.len() > 0 && b.len() > 0 && a[0] == b[0] {
        before_is_total(a.drop_first(), b.drop_first());
        if a.drop_first() == b.drop_first() {
            assert(seq![a[0]] + a.drop_first() =~= a);
            assert(seq![b[0]] + b.drop_first() =~= b);
        }
    } else if a.len() == 0 && b.len() == 0 {
        assert(a =~= b);
    }
}

/// What stands before a text stands before whatever comes after it.
pub proof fn before_is_transitive(a: Seq<char>, b: Seq<char>, c: Seq<char>)
    requires
        before(a, b),
        before(b, c),
    ensures
        before(a, c),
    decreases a.len(),
{
    if a.len() > 0 && a[0] == b[0] && b[0] == c[0] {
        before_is_transitive(a.drop_first(), b.drop_first(), c.drop_first());
    }
}

/// Texts with the same beginning are ordered by what follows it.
proof fn before_skips(a: Seq<char>, b: Seq<char>, n: int)
    requires
        0 <= n <= a.len(),
        n <= b.len(),
        forall|i: int| 0 <= i < n ==> #[trigger] a[i] == b[i],
    ensures
        before(a, b) == before(a.subrange(n, a.len() as int), b.subrange(n, b.len() as int)),
    decreases n,
{
    if n == 0 {
        assert(a.subrange(0, a.len() as int) =~= a);
        assert(b.subrange(0, b.len() as int) =~= b);
    } else {
        assert(a[0] == b[0]);
        assert forall|i: int| 0 <= i < n - 1 implies #[trigger] a.drop_first()[i] == b.drop_first()[i] by {
            assert(a[i + 1] == b[i + 1]);
        }
        before_skips(a.drop_first(), b.drop_first(), n - 1);
        assert(a.drop_first().subrange(n - 1, a.len() - 1) =~= a.subrange(n, a.len() as int));
        assert(b.drop_first().subrange(n - 1, b.len() - 1) =~= b.subrange(n, b.len() as int));
    }
}

/// Whether an ASCII text stands before another.
pub fn is_before(s: &str, t: &str) -> (r: bool)
    requires
        all_ascii(s@),
        all_ascii(t@),
    ensures
        r == before(s@, t@),
{
    let a: &[u8] = s.as_bytes();
    let b: &[u8] = t.as_bytes();
    proof {
        ascii_bytes(s);
        ascii_bytes(t);
    }
    let mut i: usize = 0;
    while i < a.len() && i < b.len()
        invariant
            i <= a.len(),
            i <= b.len(),
            a@.len() == s@.len(),
            b@.len() == t@.len(),
            a@ == vstd::utf8::encode_utf8(s@),
            b@ == vstd::utf8::encode_utf8(t@),
            all_ascii(s@),
            all_ascii(t@),
            forall|j: int| 0 <= j < i ==> #[trigger] s@[j] == t@[j],
        decreases a.len() - i,
    {
        proof {
            ascii_bytes(s);
            ascii_bytes(t);
            assert(a@[i as int] == s@[i as int] as u8 && s@[i as int] == a@[i as int] as char);
            assert(b@[i as int] == t@[i as int] as u8 && t@[i as int] == b@[i as int] as char);
        }
        if a[i] != b[i] {
            proof {
                before_skips(s@, t@, i as int);
            }
            return a[i] < b[i];
        }
        i = i + 1;
    }
    proof {
        before_skips(s@, t@, i as int);
    }
    i < b.len()
}

/// Whether `p` is the end of `t`.
pub open spec fn ends_with(t: Seq<char>, p: Seq<char>) -> bool {
    p.len() <= t.len() && t.subrange(t.len() - p.len(), t.len() as int) == p
}

/// Whether a text ends with another.
pub fn has_end(s: &str, e: &str) -> (r: bool)
    ensures
        r == ends_with(s@, e@),
{
    let t = chars_of(s);
    let p = chars_of(e);
    if p.len() > t.len() {
        return false;
    }
    let at: usize = t.len() - p.len();
    let mut i: usize = 0;
    while i < p.len()
        invariant
            i <= p.len() <= t.len(),
            at == t.len() - p.len(),
            t@ == s@,
            p@ == e@,
            forall|j: int| 0 <= j < i ==> #[trigger] p@[j] == t@[at + j],
        decreases p.len() - i,
    {
        if t[at + i] != p[i] {
            assert(t@.subrange(at as int, t@.len() as int)[i as int] != p@[i as int]);
            return false;
        }
        i = i + 1;
    }
    assert(t@.subrange(at as int, t@.len() as int) =~= p@);
    true
}

/// Whether a text begins with another.
pub fn has_front(s: &str, p: &str) -> (r: bool)
    ensures
        r == begins_with(s@, p@),
{
    let t = chars_of(s);
    let q = chars_of(p);
    if q.len() > t.len() {
        return false;
    }
    let mut i: usize = 0;
    while i < q.len()
        invariant
            i <= q.len() <= t.len(),
            t@ == s@,
            q@ == p@,
            forall|j: int| 0 <= j < i ==> #[trigger] q@[j] == t@[j],
        decreases q.len() - i,
    {
        if t[i] != q[i] {
            assert(t@.subrange(0, q@.len() as int)[i as int] != q@[i as int]);
            return false;
        }
        i = i + 1;
    }
    assert(t@.subrange(0, q@.len() as int) =~= q@);
    true
}

/// The digits of a number stand for it, and the first of several is not zero.
pub proof fn decimal_round_trip(n: nat)
    ensures
        decimal_value(decimal_text(n)) == n,
        decimal_text(n).len() >= 1,
        n > 0 ==> decimal_text(n)[0] != '0',
    decreases n,
{
    if n < 10 {
        let t = decimal_text(n);
        assert(t.drop_last() =~= Seq::empty());
        assert(decimal_value(Seq::empty()) == 0);
        assert(t.last() as nat - '0' as nat == n);
    } else {
        decimal_round_trip(n / 10);
        let t = decimal_text(n);
        assert(t.drop_last() =~= decimal_text(n / 10));
        assert(t.last() as nat - '0' as nat == n % 10);
    }
}

/// Hexadecimal digits: the decimal ones, then the small letters; capital letters
/// are read alike.
pub proof fn hex_digits(v: u8)
    requires
        v < 16,
    ensures
        v < 10 ==> hex_char(v) as int == '0' as int + v,
        v >= 10 ==> hex_char(v) as int == 'a' as int + v - 10,
        hex_value(hex_char(v)) == v,
        is_hex(hex_char(v)),
        v >= 10 ==> hex_value(('A' as int + v - 10) as char) == v,
{
}

/// Bytes in hexadecimal digits: two for each byte, the high one first.
pub proof fn hex_format(b: Seq<u8>, i: int)
    requires
        0 <= i < b.len(),
    ensures
        hex_text(b).len() == 2 * b.len(),
        hex_value(hex_text(b)[2 * i]) * 16 + hex_value(hex_text(b)[2 * i + 1]) == b[i],
{
    hex_digits(b[i] / 16);
    hex_digits(b[i] % 16);
}

/// A number in hexadecimal digits ends with the digit of its remainder by 16.
pub proof fn hex_number_format(n: nat)
    ensures
        n < 16 ==> hex_number(n).len() == 1 && hex_value(hex_number(n)[0]) == n,
        n >= 16 ==> hex_number(n).drop_last() == hex_number(n / 16) && hex_value(hex_number(n).last()) == n % 16,
{
    if n < 16 {
        hex_digits(n as u8);
    } else {
        hex_digits((n % 16) as u8);
        assert(hex_number(n).drop_last() =~= hex_number(n / 16));
    }
}

/// Which texts are numbers: digits, with a plus sign before them or not, up to a
/// limit.
pub proof fn numbers_in_text(t: Seq<char>, max: nat)
    ensures
        t.len() > 0 && t[0] == '+' ==> unsigned_part(t) == t.subrange(1, t.len() as int),
        t.len() == 0 || t[0] != '+' ==> unsigned_part(t) == t,
        number_of(t, max) is Some <==> unsigned_part(t).len() > 0 && decimal_value(unsigned_part(t)) <= max && (forall|
            i: int,
        |
            0 <= i < unsigned_part(t).len() ==> '0' <= #[trigger] unsigned_part(t)[i] && unsigned_part(t)[i] <= '9'),
        number_of(t, max) matches Some(n) ==> n == decimal_value(unsigned_part(t)),
        number_of(t, max) matches Some(n) ==> n <= max,
        number_of(decimal_text(max), max) == Some(max),
{
    let u = unsigned_part(t);
    assert(all_digits(u) == (forall|i: int| 0 <= i < u.len() ==> '0' <= #[trigger] u[i] && u[i] <= '9'));
    decimal_round_trip(max);
    decimal_is_ascii(max);
    let d = decimal_text(max);
    assert('0' <= d[0] <= '9');
}

/// One text stands before another where the first character that differs is less,
/// or where it ends first.
pub proof fn order_of_texts(a: Seq<char>, b: Seq<char>, k: int)
    requires
        0 <= k <= a.len(),
        k < b.len(),
        forall|i: int| 0 <= i < k ==> a[i] == b[i],
    ensures
        k == a.len() ==> before(a, b),
        k < a.len() && a[k] != b[k] ==> before(a, b) == (a[k] < b[k]),
    decreases k,
{
    if k > 0 {
        assert(a[0] == b[0]);
        let x = a.drop_first();
        let y = b.drop_first();
        assert forall|i: int| 0 <= i < k - 1 implies x[i] == y[i] by {
            assert(a[i + 1] == b[i + 1]);
        }
        order_of_texts(x, y, k - 1);
    }
}

/// A text in small letters: the letters of ASCII changed, all else as it is.
pub proof fn small_letters(t: Seq<char>, i: int)
    requires
        0 <= i < t.len(),
    ensures
        lowered(t).len() == t.len(),
        'A' <= t[i] && t[i] <= 'Z' ==> lowered(t)[i] as int == t[i] as int + 32,
        !('A' <= t[i] && t[i] <= 'Z') ==> lowered(t)[i] == t[i],
{
}

/// A text begins and ends with what it is put together of.
pub proof fn ends_of_texts(a: Seq<char>, b: Seq<char>)
    ensures
        begins_with(a + b, a),
        ends_with(a + b, b),
        a.len() < b.len() ==> !begins_with(a, b) && !ends_with(a, b),
{
    let t = a + b;
    assert(t.subrange(0, a.len() as int) =~= a);
    assert(t.subrange(t.len() - b.len(), t.len() as int) =~= b);
}

/// Which texts are of hexadecimal digits, and which of decimal ones: those whose
/// every character is such a digit.
pub proof fn texts_of_digits(t: Seq<char>)
    ensures
        all_hex(t) <==> forall|i: int|
            0 <= i < t.len() ==> '0' <= (#[trigger] t[i]) <= '9' || 'a' <= t[i] <= 'f' || 'A' <= t[i] <= 'F',
        all_digits(t) <==> forall|i: int| 0 <= i < t.len() ==> '0' <= (#[trigger] t[i]) <= '9',
{
    assert(forall|i: int| 0 <= i < t.len() ==> is_hex(#[trigger] t[i]) == ('0' <= t[i] <= '9' || 'a' <= t[i] <= 'f' || 'A' <= t[i] <= 'F'));
}

} // verus!
