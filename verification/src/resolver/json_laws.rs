//! What holds of lists of texts as JSON.

use vstd::prelude::*;
use crate::resolver::json;
use crate::text;

verus! {

/// Whether `w` stands in `s` at `p`.
pub open spec fn stands(s: Seq<char>, p: int, w: Seq<char>) -> bool {
    0 <= p && p + w.len() <= s.len() && s.subrange(p, p + w.len()) == w
}

/// What stands at a place, its first part stands there, and its second part
/// after it.
proof fn parts_stand(s: Seq<char>, p: int, v: Seq<char>, w: Seq<char>)
    requires
        stands(s, p, v + w),
    ensures
        stands(s, p, v),
        stands(s, p + v.len(), w),
{
    let x = s.subrange(p, p + (v + w).len());
    assert(s.subrange(p, p + v.len()) =~= v) by {
        assert(x.subrange(0, v.len() as int) =~= v);
        assert(s.subrange(p, p + v.len()) =~= x.subrange(0, v.len() as int));
    }
    assert(s.subrange(p + v.len(), p + v.len() + w.len()) =~= w) by {
        assert(x.subrange(v.len() as int, (v + w).len() as int) =~= w);
        assert(s.subrange(p + v.len(), p + v.len() + w.len()) =~= x.subrange(v.len() as int, (v + w).len() as int));
    }
}

/// What stands at a place, character by character.
proof fn stands_at(s: Seq<char>, p: int, w: Seq<char>, k: int)
    requires
        stands(s, p, w),
        0 <= k < w.len(),
    ensures
        s[p + k] == w[k],
{
    assert(s.subrange(p, p + w.len())[k] == s[p + k]);
}

/// The number of a control character is read back.
proof fn code_reads(c: char, t: Seq<char>)
    requires
        (c as u32) <= 31,
        t == seq!['0', '0', text::hex_char((c as u8) / 16), text::hex_char((c as u8) % 16)],
    ensures
        json::code_of(t) == Some(c as u32),
        json::char_of(c as u32) == Some(c),
{
    let n = c as u8;
    assert(text::is_hex(t[0]) && text::is_hex(t[1]) && text::is_hex(t[2]) && text::is_hex(t[3]));
    assert(text::hex_value(t[2]) == n / 16 && text::hex_value(t[3]) == n % 16);
    assert forall|i: int| 0 <= i < t.len() implies text::is_hex(#[trigger] t[i]) by {}
}

/// A character that was written is read back.
proof fn char_reads(s: Seq<char>, i: int, c: char, t: Seq<char>, end: int)
    requires
        stands(s, i, json::escape(c)),
        i + json::escape(c).len() < s.len(),
        json::string_at(s, i + json::escape(c).len()) == Some((t, end)),
    ensures
        json::string_at(s, i) == Some((seq![c] + t, end)),
{
    let w = json::escape(c);
    stands_at(s, i, w, 0);
    if w.len() >= 2 {
        stands_at(s, i, w, 1);
    }
    if w.len() == 6 {
        let d = s.subrange(i + 2, i + 6);
        stands_at(s, i, w, 2);
        stands_at(s, i, w, 3);
        stands_at(s, i, w, 4);
        stands_at(s, i, w, 5);
        assert(d =~= seq!['0', '0', text::hex_char((c as u8) / 16), text::hex_char((c as u8) % 16)]);
        code_reads(c, d);
    }
}

/// A string that was written is read back.
proof fn string_reads(s: Seq<char>, i: int, t: Seq<char>)
    requires
        stands(s, i, json::escaped(t) + seq!['"']),
    ensures
        json::string_at(s, i) == Some((t, i + json::escaped(t).len() + 1)),
    decreases t.len(),
{
    if t.len() == 0 {
        assert(json::escaped(t) + seq!['"'] =~= seq!['"']);
        stands_at(s, i, seq!['"'], 0);
        assert(t =~= Seq::empty());
    } else {
        let e = json::escape(t[0]);
        let rest = t.drop_first();
        let r = json::escaped(rest) + seq!['"'];
        assert(json::escaped(t) + seq!['"'] =~= e + r);
        parts_stand(s, i, e, r);
        string_reads(s, i + e.len(), rest);
        char_reads(s, i, t[0], rest, i + json::escaped(t).len() + 1);
        assert(seq![t[0]] + rest =~= t);
    }
}

/// The strings that were written are read back, one after the other.
proof fn items_read(s: Seq<char>, l: Seq<Seq<char>>, n: nat)
    requires
        n <= l.len(),
        stands(s, 0, json::items_json(l, n)),
    ensures
        json::strings_from(s, 0) == l.subrange(0, n as int) + json::strings_from(s, json::items_json(l, n).len() as int),
    decreases n,
{
    if n == 0 {
        assert(l.subrange(0, 0) + json::strings_from(s, 0) =~= json::strings_from(s, 0));
    } else {
        let m = (n - 1) as nat;
        let front = json::items_json(l, m);
        let q = json::string_json(l[n - 1]);
        let p: int = if n == 1 {
            0
        } else {
            front.len() as int + 1
        };
        if n > 1 {
            parts_stand(s, 0, front + seq![','], q);
            parts_stand(s, 0, front, seq![',']);
            stands_at(s, front.len() as int, seq![','], 0);
        } else {
            assert(s.subrange(0, 0) =~= front);
        }
        items_read(s, l, m);
        let body = json::escaped(l[n - 1]) + seq!['"'];
        assert(q =~= seq!['"'] + body);
        parts_stand(s, p, seq!['"'], body);
        stands_at(s, p, seq!['"'], 0);
        string_reads(s, p + 1, l[n - 1]);
        let end = p + q.len();
        assert(json::strings_from(s, p) == seq![l[n - 1]] + json::strings_from(s, end));
        assert(l.subrange(0, n as int) =~= l.subrange(0, m as int) + seq![l[n - 1]]);
        assert(l.subrange(0, m as int) + (seq![l[n - 1]] + json::strings_from(s, end)) =~= l.subrange(0, n as int)
            + json::strings_from(s, end));
    }
}

/// A list that was written as JSON is read back as it was.
pub proof fn json_round_trip(l: Seq<Seq<char>>)
    ensures
        json::list_of(json::list_json(l)) == l,
{
    let j = json::list_json(l);
    let n = l.len();
    let inner = json::items_json(l, n);
    assert(j[0] == '[' && j[j.len() - 1] == ']');
    assert(json::text_start(j, 0) == 0);
    assert(json::text_end(j, 0, j.len() as int) == j.len());
    assert(j.subrange(0, j.len() as int) =~= j);
    assert(j.subrange(1, j.len() - 1) =~= inner);
    assert(inner.subrange(0, inner.len() as int) =~= inner);
    items_read(inner, l, n);
    assert(l.subrange(0, n as int) + Seq::<Seq<char>>::empty() =~= l);
}

/// Four digits after a backslash and a u, small or capital, stand for the character
/// with that number, and for nothing where there is none; so do four characters
/// that are no digits.
pub proof fn numbered_characters(s: Seq<char>, i: int, a: u8, b: u8, c: u8, d: u8)
    requires
        0 <= i,
        i + 4 < s.len(),
        s[i] == 'u',
    ensures
        a < 16 && b < 16 && c < 16 && d < 16 && s[i + 1] == text::hex_char(a) && s[i + 2] == text::hex_char(b) && s[i + 3]
            == text::hex_char(c) && s[i + 4] == text::hex_char(d) ==> {
            let n = ((a * 16 + b) * 16 + c) * 16 + d;
            json::unescape(s, i) == (
                if 0xD800 <= n < 0xE000 {
                    Seq::empty()
                } else {
                    seq![n as char]
                },
                i + 5,
            )
        },
        !text::is_hex(s[i + 2]) || !text::is_hex(s[i + 3]) || !text::is_hex(s[i + 4]) ==> json::unescape(s, i) == (
            Seq::<char>::empty(),
            i + 5,
        ),
        !text::is_hex(s[i + 1]) && s[i + 1] != '+' ==> json::unescape(s, i) == (Seq::<char>::empty(), i + 5),
{
    let t = s.subrange(i + 1, i + 5);
    assert(t[0] == s[i + 1] && t[1] == s[i + 2] && t[2] == s[i + 3] && t[3] == s[i + 4]);
    if a < 16 && b < 16 && c < 16 && d < 16 && s[i + 1] == text::hex_char(a) && s[i + 2] == text::hex_char(b) && s[i + 3]
        == text::hex_char(c) && s[i + 4] == text::hex_char(d) {
        text::hex_digits(a);
        text::hex_digits(b);
        text::hex_digits(c);
        text::hex_digits(d);
        assert(text::all_hex(t));
        let n = ((a * 16 + b) * 16 + c) * 16 + d;
        assert(json::code_of(t) == Some(n as u32));
    }
    let e = if t[0] == '+' {
        t.subrange(1, 4)
    } else {
        t
    };
    assert(t[0] == '+' ==> e[0] == t[1] && e[1] == t[2] && e[2] == t[3]);
}

/// A string that no quote ends is none.
pub proof fn string_without_an_end(s: Seq<char>, i: int)
    requires
        0 <= i,
        forall|k: int| i <= k < s.len() ==> s[k] != '"',
    ensures
        json::string_at(s, i) is None,
    decreases s.len() - i,
{
    if i < s.len() {
        if s[i] == '\\' {
            if i + 1 < s.len() {
                let (c, j) = json::unescape(s, i + 1);
                assert(j > i);
                string_without_an_end(s, j);
            }
        } else {
            string_without_an_end(s, i + 1);
        }
    }
}

} // verus!
