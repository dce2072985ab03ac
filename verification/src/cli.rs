//! Command lines.

use vstd::prelude::*;
use crate::text;
use crate::wire;

verus! {

/// Where a word first stands in a command line.
pub open spec fn first_at(argv: Seq<Seq<char>>, w: Seq<char>) -> Option<int>
    decreases argv.len(),
{
    if argv.len() == 0 {
        None
    } else {
        match first_at(argv.drop_last(), w) {
            Some(i) => Some(i),
            None => if argv.last() == w {
                Some(argv.len() - 1)
            } else {
                None
            },
        }
    }
}

/// Whether a word stands in a command line.
pub open spec fn has(argv: Seq<Seq<char>>, w: Seq<char>) -> bool {
    first_at(argv, w) is Some
}

/// The value of an argument: the word behind its name, unless that is a name
/// too.
pub open spec fn value_of(argv: Seq<Seq<char>>, flag: Seq<char>) -> Option<Seq<char>> {
    match first_at(argv, flag) {
        Some(i) => if i + 1 < argv.len() && !text::begins_with(argv[i + 1], "--"@) {
            Some(argv[i + 1])
        } else {
            None
        },
        None => None,
    }
}

/// A word stands where it is said to, and not before.
pub proof fn first_at_is_first(argv: Seq<Seq<char>>, w: Seq<char>)
    ensures
        match first_at(argv, w) {
            Some(i) => 0 <= i < argv.len() && argv[i] == w && forall|j: int| 0 <= j < i ==> argv[j] != w,
            None => forall|j: int| 0 <= j < argv.len() ==> argv[j] != w,
        },
    decreases argv.len(),
{
    if argv.len() > 0 {
        let rest = argv.drop_last();
        first_at_is_first(rest, w);
        assert forall|j: int| 0 <= j < rest.len() implies rest[j] == argv[j] by {}
        match first_at(rest, w) {
            Some(i) => {
                assert(rest[i] == argv[i]);
                assert forall|j: int| 0 <= j < i implies argv[j] != w by {
                    assert(rest[j] == argv[j]);
                }
            },
            None => {
                assert forall|j: int| 0 <= j < rest.len() implies argv[j] != w by {
                    assert(rest[j] == argv[j]);
                }
            },
        }
    }
}

/// Where a word first stands in a command line.
fn position(argv: &Vec<String>, w: &str) -> (r: Option<usize>)
    ensures
        match r {
            Some(i) => first_at(text::texts(argv@), w@) == Some(i as int) && i < argv@.len(),
            None => first_at(text::texts(argv@), w@) is None,
        },
{
    let ghost t = text::texts(argv@);
    let mut i: usize = 0;
    assert(t.subrange(0, 0) =~= Seq::<Seq<char>>::empty());
    while i < argv.len()
        invariant
            i <= argv.len(),
            t == text::texts(argv@),
            first_at(t.subrange(0, i as int), w@) is None,
        decreases argv.len() - i,
    {
        assert(t.subrange(0, i + 1).drop_last() =~= t.subrange(0, i as int));
        if text::same_text(argv[i].as_str(), w) {
            proof {
                first_stays(t, w@, i + 1);
            }
            return Some(i);
        }
        i = i + 1;
    }
    assert(t.subrange(0, i as int) =~= t);
    None
}

/// A word that stands in the beginning of a command line is first there.
proof fn first_stays(t: Seq<Seq<char>>, w: Seq<char>, n: int)
    requires
        0 <= n <= t.len(),
        first_at(t.subrange(0, n), w) is Some,
    ensures
        first_at(t, w) == first_at(t.subrange(0, n), w),
    decreases t.len() - n,
{
    if n == t.len() {
        assert(t.subrange(0, n) =~= t);
    } else {
        assert(t.subrange(0, n + 1).drop_last() =~= t.subrange(0, n));
        first_stays(t, w, n + 1);
    }
}

/// Whether a word stands in a command line.
pub fn has_flag(argv: &Vec<String>, flag: &str) -> (r: bool)
    ensures
        r == has(text::texts(argv@), flag@),
{
    position(argv, flag).is_some()
}

/// The value of an argument.
pub fn arg_value(argv: &Vec<String>, flag: &str) -> (r: Option<String>)
    ensures
        match r {
            Some(v) => value_of(text::texts(argv@), flag@) == Some(v@),
            None => value_of(text::texts(argv@), flag@) is None,
        },
{
    match position(argv, flag) {
        Some(i) => if i < argv.len() - 1 && !text::has_front(argv[i + 1].as_str(), "--") {
            Some(argv[i + 1].clone())
        } else {
            None
        },
        None => None,
    }
}

/// Whether a text is a key: 64 hexadecimal digits.
pub open spec fn is_key_text(t: Seq<char>) -> bool {
    t.len() == 64 && text::all_hex(t)
}

/// Reads a key of 64 hexadecimal digits.
pub fn parse_seed(s: &str) -> (r: Option<[u8; 32]>)
    ensures
        match r {
            Some(k) => is_key_text(s@) && k@ == text::hex_bytes(s@),
            None => !is_key_text(s@),
        },
{
    match text::unhex(s) {
        Some(b) => if b.len() == 32 {
            Some(wire::array32(b.as_slice()))
        } else {
            None
        },
        None => None,
    }
}

/// The value of a flag is the word after the place where the flag stands first,
/// unless that begins with two hyphens.
pub proof fn value_stands_after_the_flag(argv: Seq<Seq<char>>, flag: Seq<char>, i: int)
    requires
        0 <= i < argv.len(),
        argv[i] == flag,
        forall|j: int| 0 <= j < i ==> argv[j] != flag,
    ensures
        has(argv, flag),
        i + 1 == argv.len() ==> value_of(argv, flag) is None,
        i + 1 < argv.len() ==> {
            let w = argv[i + 1];
            if w.len() >= 2 && w[0] == '-' && w[1] == '-' {
                value_of(argv, flag) is None
            } else {
                value_of(argv, flag) == Some(w)
            }
        },
{
    first_at_is_first(argv, flag);
    let k = first_at(argv, flag);
    assert(k == Some(i)) by {
        match k {
            Some(j) => {
                if j < i {
                    assert(argv[j] != flag);
                } else if i < j {
                    assert(argv[i] != flag);
                }
            },
            None => {
                assert(argv[i] != flag);
            },
        }
    }
    reveal_strlit("--");
    if i + 1 < argv.len() {
        let w = argv[i + 1];
        if w.len() >= 2 {
            let s = w.subrange(0, 2);
            assert(s[0] == w[0] && s[1] == w[1]);
            if w[0] == '-' && w[1] == '-' {
                assert(s =~= "--"@);
            }
        }
    }
}

/// A flag that does not stand there has no value.
pub proof fn absent_flag_has_no_value(argv: Seq<Seq<char>>, flag: Seq<char>)
    requires
        forall|j: int| 0 <= j < argv.len() ==> argv[j] != flag,
    ensures
        first_at(argv, flag) is None,
        value_of(argv, flag) is None,
{
    first_at_is_first(argv, flag);
    match first_at(argv, flag) {
        Some(j) => {
            assert(argv[j] != flag);
        },
        None => {},
    }
}

} // verus!
