//! Lists of texts as JSON.

use vstd::prelude::*;
use crate::text;

verus! {

/// `char::from_u32`: the character with a number, if there is one.
pub assume_specification[ char::from_u32 ](i: u32) -> (r: Option<char>)
    ensures
        r == char_of(i),
;

/// The character with a number, if there is one.
pub open spec fn char_of(i: u32) -> Option<char> {
    if i <= 0xd7ff || 0xe000 <= i <= 0x10ffff {
        Some(i as char)
    } else {
        None
    }
}

/// A character inside a JSON string.
pub open spec fn escape(c: char) -> Seq<char> {
    if c == '"' {
        seq!['\\', '"']
    } else if c == '\\' {
        seq!['\\', '\\']
    } else if c == '\n' {
        seq!['\\', 'n']
    } else if c == '\r' {
        seq!['\\', 'r']
    } else if c == '\t' {
        seq!['\\', 't']
    } else if (c as u32) <= 31 {
        seq!['\\', 'u', '0', '0', text::hex_char((c as u8) / 16), text::hex_char((c as u8) % 16)]
    } else {
        seq![c]
    }
}

/// A text inside a JSON string.
pub open spec fn escaped(t: Seq<char>) -> Seq<char>
    decreases t.len(),
{
    if t.len() == 0 {
        Seq::empty()
    } else {
        escape(t[0]) + escaped(t.drop_first())
    }
}

/// A text as a JSON string.
pub open spec fn string_json(t: Seq<char>) -> Seq<char> {
    seq!['"'] + escaped(t) + seq!['"']
}

/// The first `n` texts of a list, with commas between them.
pub open spec fn items_json(l: Seq<Seq<char>>, n: nat) -> Seq<char>
    decreases n,
{
    if n == 0 {
        Seq::empty()
    } else if n == 1 {
        string_json(l[0])
    } else {
        items_json(l, (n - 1) as nat) + seq![','] + string_json(l[n - 1])
    }
}

/// A list of texts as JSON.
pub open spec fn list_json(l: Seq<Seq<char>>) -> Seq<char> {
    seq!['['] + items_json(l, l.len()) + seq![']']
}

/// Whether a character is white space.
pub open spec fn is_white(c: char) -> bool {
    ('\t' <= c <= '\r') || c == ' ' || c == '\u{85}' || c == '\u{a0}' || c == '\u{1680}' || ('\u{2000}' <= c <= '\u{200a}')
        || c == '\u{2028}' || c == '\u{2029}' || c == '\u{202f}' || c == '\u{205f}' || c == '\u{3000}'
}

/// Where the first character stands, from `i` on, that is no white space.
pub open spec fn text_start(t: Seq<char>, i: int) -> int
    decreases t.len() - i,
{
    if i >= t.len() {
        t.len() as int
    } else if is_white(t[i]) {
        text_start(t, i + 1)
    } else {
        i
    }
}

/// Where the text ends, up to `n`, but for white space; not before `from`.
pub open spec fn text_end(t: Seq<char>, from: int, n: int) -> int
    decreases n,
{
    if n <= from || n <= 0 {
        from
    } else if is_white(t[n - 1]) {
        text_end(t, from, n - 1)
    } else {
        n
    }
}

/// A text without white space around it.
pub open spec fn trimmed(t: Seq<char>) -> Seq<char> {
    let a = text_start(t, 0);
    t.subrange(a, text_end(t, a, t.len() as int))
}

/// The number that four hexadecimal digits stand for. The first may be a plus
/// sign.
pub open spec fn code_of(t: Seq<char>) -> Option<u32> {
    let d = if t[0] == '+' {
        t.subrange(1, t.len() as int)
    } else {
        t
    };
    if text::all_hex(d) {
        Some(
            if d.len() == 3 {
                (text::hex_value(d[0]) * 256 + text::hex_value(d[1]) * 16 + text::hex_value(d[2])) as u32
            } else {
                (text::hex_value(d[0]) * 4096 + text::hex_value(d[1]) * 256 + text::hex_value(d[2]) * 16 + text::hex_value(
                    d[3],
                )) as u32
            },
        )
    } else {
        None
    }
}

/// What an escape at `i`, after the backslash, stands for, and where it ends.
pub open spec fn unescape(s: Seq<char>, i: int) -> (Seq<char>, int) {
    let c = s[i];
    if c == 'u' {
        if i + 4 < s.len() {
            match code_of(s.subrange(i + 1, i + 5)) {
                Some(n) => match char_of(n) {
                    Some(x) => (seq![x], i + 5),
                    None => (Seq::empty(), i + 5),
                },
                None => (Seq::empty(), i + 5),
            }
        } else {
            (Seq::empty(), i + 1)
        }
    } else {
        (
            seq![
                if c == 'n' {
                    '\n'
                } else if c == 'r' {
                    '\r'
                } else if c == 't' {
                    '\t'
                } else {
                    c
                },
            ],
            i + 1,
        )
    }
}

/// The string at `i`, after its first quotation mark, and where it ends.
pub open spec fn string_at(s: Seq<char>, i: int) -> Option<(Seq<char>, int)>
    decreases s.len() - i,
{
    if i < 0 || i >= s.len() {
        None
    } else if s[i] == '"' {
        Some((Seq::empty(), i + 1))
    } else if s[i] == '\\' {
        if i + 1 >= s.len() {
            None
        } else {
            let (c, j) = unescape(s, i + 1);
            match string_at(s, j) {
                Some((t, end)) => Some((c + t, end)),
                None => None,
            }
        }
    } else {
        match string_at(s, i + 1) {
            Some((t, end)) => Some((seq![s[i]] + t, end)),
            None => None,
        }
    }
}

/// The strings from `i` on. What stands between them is not looked at.
pub open spec fn strings_from(s: Seq<char>, i: int) -> Seq<Seq<char>>
    decreases s.len() - i,
{
    if i < 0 || i >= s.len() {
        Seq::empty()
    } else if s[i] == '"' {
        match string_at(s, i + 1) {
            Some((t, end)) => if i < end <= s.len() {
                seq![t] + strings_from(s, end)
            } else {
                Seq::empty()
            },
            None => Seq::empty(),
        }
    } else {
        strings_from(s, i + 1)
    }
}

/// The texts of a JSON list; none where it is no list.
pub open spec fn list_of(json: Seq<char>) -> Seq<Seq<char>> {
    let s = trimmed(json);
    if s.len() < 2 || s[0] != '[' || s[s.len() - 1] != ']' {
        Seq::empty()
    } else {
        strings_from(s.subrange(1, s.len() - 1), 0)
    }
}

/// Writes a character inside a JSON string.
fn put_char(out: &mut String, c: char)
    ensures
        final(out)@ == old(out)@ + escape(c),
{
    if c == '"' {
        out.push('\\');
        out.push('"');
    } else if c == '\\' {
        out.push('\\');
        out.push('\\');
    } else if c == '\n' {
        out.push('\\');
        out.push('n');
    } else if c == '\r' {
        out.push('\\');
        out.push('r');
    } else if c == '\t' {
        out.push('\\');
        out.push('t');
    } else if (c as u32) <= 31 {
        let n: u8 = c as u8;
        out.push('\\');
        out.push('u');
        out.push('0');
        out.push('0');
        out.push(text::hex_digit(n / 16));
        out.push(text::hex_digit(n % 16));
    } else {
        out.push(c);
    }
    assert(out@ =~= old(out)@ + escape(c));
}

/// A text with a character more inside a JSON string.
proof fn escaped_push(t: Seq<char>, c: char)
    ensures
        escaped(t.push(c)) == escaped(t) + escape(c),
    decreases t.len(),
{
    let u = t.push(c);
    if t.len() == 0 {
        assert(u.drop_first() =~= Seq::empty());
        assert(escaped(u.drop_first()) =~= Seq::empty());
        assert(escape(c) + Seq::empty() =~= escape(c));
        assert(Seq::empty() + escape(c) =~= escape(c));
    } else {
        escaped_push(t.drop_first(), c);
        assert(u.drop_first() =~= t.drop_first().push(c));
        assert(escape(t[0]) + (escaped(t.drop_first()) + escape(c)) =~= escape(t[0]) + escaped(t.drop_first()) + escape(c));
    }
}

/// Writes a text as a JSON string.
fn put_string(out: &mut String, t: &str)
    ensures
        final(out)@ == old(out)@ + string_json(t@),
{
    let v = text::chars_of(t);
    out.push('"');
    let ghost start = out@;
    let mut i: usize = 0;
    proof {
        assert(v@.subrange(0, 0) =~= Seq::empty());
        assert(start + escaped(v@.subrange(0, 0)) =~= start);
    }
    while i < v.len()
        invariant
            i <= v.len(),
            out@ == start + escaped(v@.subrange(0, i as int)),
        decreases v.len() - i,
    {
        put_char(out, v[i]);
        proof {
            escaped_push(v@.subrange(0, i as int), v@[i as int]);
            assert(v@.subrange(0, i as int).push(v@[i as int]) =~= v@.subrange(0, i + 1));
            assert(out@ =~= start + escaped(v@.subrange(0, i + 1)));
        }
        i = i + 1;
    }
    out.push('"');
    assert(v@.subrange(0, i as int) =~= t@);
    assert(out@ =~= old(out)@ + string_json(t@));
}

/// Writes a list of texts as JSON.
pub fn encode_json_strings(list: &[String]) -> (s: String)
    ensures
        s@ == list_json(text::texts(list@)),
{
    let ghost l = text::texts(list@);
    let mut out = String::new();
    out.push('[');
    let mut i: usize = 0;
    assert(out@ =~= seq!['['] + items_json(l, 0));
    while i < list.len()
        invariant
            i <= list.len(),
            l == text::texts(list@),
            out@ == seq!['['] + items_json(l, i as nat),
        decreases list.len() - i,
    {
        let ghost before = out@;
        if i > 0 {
            out.push(',');
        }
        put_string(&mut out, list[i].as_str());
        assert(l[i as int] == list@[i as int]@);
        assert(out@ =~= seq!['['] + items_json(l, i as nat + 1));
        i = i + 1;
    }
    out.push(']');
    assert(out@ =~= list_json(l));
    out
}

/// Whether a character is white space.
fn white(c: char) -> (r: bool)
    ensures
        r == is_white(c),
{
    ('\t' <= c && c <= '\r') || c == ' ' || c == '\u{85}' || c == '\u{a0}' || c == '\u{1680}' || ('\u{2000}' <= c && c
        <= '\u{200a}') || c == '\u{2028}' || c == '\u{2029}' || c == '\u{202f}' || c == '\u{205f}' || c == '\u{3000}'
}

/// Whether a character is a hexadecimal digit, and its value.
fn digit_of(c: char) -> (r: Option<u32>)
    ensures
        r == if text::is_hex(c) {
            Some(text::hex_value(c) as u32)
        } else {
            None
        },
{
    if '0' <= c && c <= '9' {
        Some(c as u32 - '0' as u32)
    } else if 'a' <= c && c <= 'f' {
        Some(c as u32 - 'a' as u32 + 10)
    } else if 'A' <= c && c <= 'F' {
        Some(c as u32 - 'A' as u32 + 10)
    } else {
        None
    }
}

/// The number that the four characters at `i` stand for.
fn read_code(s: &Vec<char>, i: usize) -> (r: Option<u32>)
    requires
        i + 4 <= s.len(),
    ensures
        r == code_of(s@.subrange(i as int, i + 4)),
{
    let ghost t = s@.subrange(i as int, i + 4);
    assert(t[0] == s@[i as int] && t[1] == s@[i + 1] && t[2] == s@[i + 2] && t[3] == s@[i + 3]);
    let plus: bool = s[i] == '+';
    let ghost d = if t[0] == '+' {
        t.subrange(1, 4)
    } else {
        t
    };
    let first: Option<u32> = if plus {
        Some(0)
    } else {
        digit_of(s[i])
    };
    match (first, digit_of(s[i + 1]), digit_of(s[i + 2]), digit_of(s[i + 3])) {
        (Some(a), Some(b), Some(c), Some(e)) => {
            proof {
                assert forall|k: int| 0 <= k < d.len() implies text::is_hex(#[trigger] d[k]) by {}
                assert(text::all_hex(d));
            }
            Some(a * 4096 + b * 256 + c * 16 + e)
        },
        _ => {
            proof {
                if text::all_hex(d) {
                    if plus {
                        assert(text::is_hex(d[0]) && text::is_hex(d[1]) && text::is_hex(d[2]));
                    } else {
                        assert(text::is_hex(d[0]) && text::is_hex(d[1]) && text::is_hex(d[2]) && text::is_hex(d[3]));
                    }
                }
            }
            None
        },
    }
}

/// Reads an escape at `i`, after the backslash, onto `out`.
fn read_escape(s: &Vec<char>, i: usize, out: &mut String) -> (j: usize)
    requires
        i < s.len(),
    ensures
        j == unescape(s@, i as int).1,
        i < j <= s.len(),
        final(out)@ == old(out)@ + unescape(s@, i as int).0,
{
    let c = s[i];
    if c == 'u' {
        if s.len() - i > 4 {
            match read_code(s, i + 1) {
                Some(n) => match char::from_u32(n) {
                    Some(x) => {
                        out.push(x);
                        assert(out@ =~= old(out)@ + seq![x]);
                    },
                    None => {},
                },
                None => {},
            }
            i + 5
        } else {
            i + 1
        }
    } else {
        let x = if c == 'n' {
            '\n'
        } else if c == 'r' {
            '\r'
        } else if c == 't' {
            '\t'
        } else {
            c
        };
        out.push(x);
        assert(out@ =~= old(out)@ + seq![x]);
        i + 1
    }
}

/// Reads the string at `i`, after its first quotation mark.
fn read_string(s: &Vec<char>, from: usize) -> (r: Option<(String, usize)>)
    requires
        from <= s.len(),
    ensures
        match r {
            Some((t, end)) => string_at(s@, from as int) == Some((t@, end as int)) && from < end <= s.len(),
            None => string_at(s@, from as int) is None,
        },
{
    let mut out = String::new();
    let mut i: usize = from;
    proof {
        match string_at(s@, i as int) {
            Some((t, _)) => {
                assert(out@ + t =~= t);
            },
            None => {},
        }
    }
    while i < s.len()
        invariant
            from <= i <= s.len(),
            string_at(s@, from as int) == match string_at(s@, i as int) {
                Some((t, end)) => Some((out@ + t, end)),
                None => None,
            },
        decreases s.len() - i,
    {
        let ghost before = out@;
        let ghost at = i as int;
        let c = s[i];
        if c == '"' {
            assert(out@ + Seq::<char>::empty() =~= out@);
            return Some((out, i + 1));
        } else if c == '\\' {
            if i + 1 == s.len() {
                return None;
            }
            i = read_escape(s, i + 1, &mut out);
            proof {
                match string_at(s@, i as int) {
                    Some((t, _)) => {
                        assert(before + (unescape(s@, at + 1).0 + t) =~= out@ + t);
                    },
                    None => {},
                }
            }
        } else {
            out.push(c);
            i = i + 1;
            proof {
                match string_at(s@, i as int) {
                    Some((t, _)) => {
                        assert(before + (seq![c] + t) =~= out@ + t);
                    },
                    None => {},
                }
            }
        }
    }
    None
}

/// Reads the strings between two places.
fn read_strings(s: &Vec<char>) -> (r: Vec<String>)
    ensures
        text::texts(r@) == strings_from(s@, 0),
{
    let mut r: Vec<String> = Vec::new();
    let mut i: usize = 0;
    assert(text::texts(r@) + strings_from(s@, 0) =~= strings_from(s@, 0));
    while i < s.len()
        invariant
            i <= s.len(),
            text::texts(r@) + strings_from(s@, i as int) == strings_from(s@, 0),
        decreases s.len() - i,
    {
        if s[i] == '"' {
            match read_string(s, i + 1) {
                Some((t, end)) => {
                    let ghost before = text::texts(r@);
                    let ghost c = t@;
                    r.push(t);
                    assert(text::texts(r@) =~= before.push(c));
                    assert(before + (seq![c] + strings_from(s@, end as int)) =~= before.push(c) + strings_from(s@, end as int));
                    i = end;
                },
                None => {
                    assert(text::texts(r@) + Seq::<Seq<char>>::empty() =~= text::texts(r@));
                    return r;
                },
            }
        } else {
            i = i + 1;
        }
    }
    assert(text::texts(r@) + Seq::<Seq<char>>::empty() =~= text::texts(r@));
    r
}

/// Where a text starts and ends, but for white space around it.
fn trim(v: &Vec<char>) -> (r: (usize, usize))
    ensures
        r.0 == text_start(v@, 0),
        r.1 == text_end(v@, r.0 as int, v@.len() as int),
        r.0 <= r.1 <= v.len(),
{
    let mut a: usize = 0;
    while a < v.len() && white(v[a])
        invariant
            a <= v.len(),
            text_start(v@, 0) == text_start(v@, a as int),
        decreases v.len() - a,
    {
        a = a + 1;
    }
    let mut b: usize = v.len();
    while b > a && white(v[b - 1])
        invariant
            a <= b <= v.len(),
            text_end(v@, a as int, v@.len() as int) == text_end(v@, a as int, b as int),
        decreases b,
    {
        b = b - 1;
    }
    (a, b)
}

/// Reads a JSON list of texts.
pub fn decode_json_strings(s: &str) -> (r: Vec<String>)
    ensures
        text::texts(r@) == list_of(s@),
{
    let v = text::chars_of(s);
    let (a, b): (usize, usize) = trim(&v);
    let ghost t = trimmed(s@);
    if b - a < 2 || v[a] != '[' || v[b - 1] != ']' {
        let r: Vec<String> = Vec::new();
        assert(text::texts(r@) =~= Seq::empty());
        return r;
    }
    let inner = sub_chars(&v, a + 1, b - 1);
    assert(inner@ =~= t.subrange(1, t.len() - 1));
    read_strings(&inner)
}

/// The characters between two places.
fn sub_chars(v: &Vec<char>, from: usize, to: usize) -> (r: Vec<char>)
    requires
        from <= to <= v.len(),
    ensures
        r@ == v@.subrange(from as int, to as int),
{
    let mut r: Vec<char> = Vec::new();
    let mut i: usize = from;
    while i < to
        invariant
            from <= i <= to <= v.len(),
            r@ == v@.subrange(from as int, i as int),
        decreases to - i,
    {
        r.push(v[i]);
        i = i + 1;
        assert(r@ =~= v@.subrange(from as int, i as int));
    }
    r
}

/// How characters stand in a text: control characters, quotes and backslashes
/// escaped, all others as they are.
pub proof fn escapes(c: char)
    ensures
        c as int >= 32 && c != '"' && c != '\\' ==> escape(c) == seq![c],
        c == '"' || c == '\\' ==> escape(c) == seq!['\\', c],
        (c as int) < 32 ==> escape(c).len() >= 2 && escape(c)[0] == '\\',
        c as int == 10 ==> escape(c) == seq!['\\', 'n'],
        c as int == 13 ==> escape(c) == seq!['\\', 'r'],
        c as int == 9 ==> escape(c) == seq!['\\', 't'],
        (c as int) < 32 && c as int != 9 && c as int != 10 && c as int != 13 ==> escape(c).len() == 6 && escape(c)[1] == 'u',
{
}

/// A list of texts stands in brackets, each text in quotes, with commas between
/// them.
pub proof fn list_format(l: Seq<Seq<char>>)
    ensures
        list_json(l).len() >= 2,
        list_json(l)[0] == '[',
        list_json(l).last() == ']',
        l.len() == 0 ==> list_json(l) == seq!['[', ']'],
        l.len() == 1 ==> list_json(l) == seq!['[', '"'] + escaped(l[0]) + seq!['"', ']'],
        l.len() == 2 ==> list_json(l) == seq!['[', '"'] + escaped(l[0]) + seq!['"', ',', '"'] + escaped(l[1]) + seq!['"', ']'],
{
    if l.len() == 0 {
        assert(list_json(l) =~= seq!['[', ']']);
    } else if l.len() == 1 {
        assert(list_json(l) =~= seq!['[', '"'] + escaped(l[0]) + seq!['"', ']']);
    } else if l.len() == 2 {
        assert(items_json(l, 1) == string_json(l[0]));
        assert(list_json(l) =~= seq!['[', '"'] + escaped(l[0]) + seq!['"', ',', '"'] + escaped(l[1]) + seq!['"', ']']);
    }
}

/// What stands after a backslash: the letters n, r and t for control characters, a
/// u with four digits for a character of that number, and anything else for
/// itself.
pub proof fn unescapes(s: Seq<char>, i: int)
    requires
        0 <= i < s.len(),
    ensures
        s[i] == 'n' ==> unescape(s, i) == (seq![10u8 as char], i + 1),
        s[i] == 'r' ==> unescape(s, i) == (seq![13u8 as char], i + 1),
        s[i] == 't' ==> unescape(s, i) == (seq![9u8 as char], i + 1),
        s[i] != 'n' && s[i] != 'r' && s[i] != 't' && s[i] != 'u' ==> unescape(s, i) == (seq![s[i]], i + 1),
        s[i] == 'u' && i + 4 < s.len() ==> unescape(s, i).1 == i + 5 && unescape(s, i).0.len() <= 1,
        s[i] == 'u' && i + 4 < s.len() && s[i + 1] == '0' && s[i + 2] == '0' && s[i + 3] == '0' && '0' <= s[i + 4] && s[i + 4]
            <= '9' ==> unescape(s, i).0 == seq![(s[i + 4] as int - '0' as int) as char],
{
    if s[i] == 'u' && i + 4 < s.len() && s[i + 1] == '0' && s[i + 2] == '0' && s[i + 3] == '0' && '0' <= s[i + 4] && s[i + 4]
        <= '9' {
        let t = s.subrange(i + 1, i + 5);
        assert(t[0] == '0' && t[1] == '0' && t[2] == '0' && t[3] == s[i + 4]);
        assert(text::all_hex(t));
    }
}

/// What does not stand in brackets is no list.
pub proof fn no_list_without_brackets(t: Seq<char>)
    requires
        t.len() > 0,
        !is_white(t[0]),
        !is_white(t[t.len() - 1]),
    ensures
        t[0] != '[' || t[t.len() - 1] != ']' ==> list_of(t).len() == 0,
{
    assert(text_start(t, 0) == 0);
    assert(text_end(t, 0, t.len() as int) == t.len());
    assert(t.subrange(0, t.len() as int) =~= t);
}

/// What is white space: the blank, the control characters from 9 to 13, and the
/// spaces beyond ASCII.
pub proof fn white_space(c: char)
    ensures
        is_white(c) <==> ({
            let n = c as int;
            9 <= n <= 13 || n == 32 || n == 0x85 || n == 0xA0 || n == 0x1680 || 0x2000 <= n <= 0x200A || n == 0x2028 || n
                == 0x2029 || n == 0x202F || n == 0x205F || n == 0x3000
        }),
{
}

} // verus!
