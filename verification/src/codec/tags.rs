//! Capability tags as the payload of an extension header: the tags with a
//! separator between them, filled up with zeros to a multiple of 8 bytes.

use vstd::prelude::*;
use crate::codec::layouts::LayoutError;
use crate::wire;

verus! {

/// Writing and reading of tag lists.
pub struct SemanticTags;

/// The separator between tags.
pub const SEPARATOR: u8 = 0x1F;

/// Whether a character can stand in a tag.
pub open spec fn tag_char(c: char) -> bool {
    'a' <= c <= 'z' || '0' <= c <= '9' || c == '-'
}

/// Whether a text is a tag: 1 to 48 characters `a-z`, `0-9` and `-`, the first
/// and the last of them not `-`.
pub open spec fn is_tag(t: Seq<char>) -> bool {
    &&& 1 <= t.len() <= 48
    &&& t[0] != '-'
    &&& t[t.len() - 1] != '-'
    &&& forall|i: int| 0 <= i < t.len() ==> tag_char(#[trigger] t[i])
}

/// Whether every text of a list is a tag.
pub open spec fn all_tags(tags: Seq<Seq<char>>) -> bool {
    forall|i: int| 0 <= i < tags.len() ==> is_tag(#[trigger] tags[i])
}

/// The bytes of an ASCII text.
pub open spec fn ascii(t: Seq<char>) -> Seq<u8> {
    Seq::new(t.len(), |i: int| t[i] as u8)
}

/// The text of ASCII bytes.
pub open spec fn ascii_text(b: Seq<u8>) -> Seq<char> {
    Seq::new(b.len(), |i: int| b[i] as char)
}

/// The first `n` tags with separators between them.
pub open spec fn joined(tags: Seq<Seq<char>>, n: nat) -> Seq<u8>
    decreases n,
{
    if n == 0 {
        Seq::empty()
    } else if n == 1 {
        ascii(tags[0])
    } else {
        joined(tags, (n - 1) as nat) + seq![SEPARATOR] + ascii(tags[n - 1])
    }
}

/// Bytes filled up with zeros to a multiple of 8.
pub open spec fn padded(b: Seq<u8>) -> Seq<u8> {
    b + wire::zeros(((8 - b.len() % 8) % 8) as nat)
}

/// What a list of texts is written as.
pub open spec fn tags_wire(tags: Seq<Seq<char>>) -> Result<Seq<u8>, LayoutError> {
    if tags.len() == 0 {
        Err(LayoutError::EmptyTags)
    } else if tags.len() > 32 {
        Err(LayoutError::TooManyTags)
    } else if !all_tags(tags) {
        Err(LayoutError::BadTag)
    } else if joined(tags, tags.len()).len() > 1536 {
        Err(LayoutError::TagsTooLong)
    } else {
        Ok(padded(joined(tags, tags.len())))
    }
}

/// Bytes without the zeros at their end.
pub open spec fn trimmed(b: Seq<u8>) -> Seq<u8>
    decreases b.len(),
{
    if b.len() > 0 && b.last() == 0 {
        trimmed(b.drop_last())
    } else {
        b
    }
}

/// Bytes cut at the separators.
pub open spec fn parts(b: Seq<u8>) -> Seq<Seq<u8>>
    decreases b.len(),
{
    if b.len() == 0 {
        seq![Seq::empty()]
    } else {
        let s = parts(b.drop_last());
        if b.last() == SEPARATOR {
            s.push(Seq::empty())
        } else {
            s.drop_last().push(s.last().push(b.last()))
        }
    }
}

/// The texts of a list of ASCII byte strings.
pub open spec fn part_texts(s: Seq<Seq<u8>>) -> Seq<Seq<char>> {
    s.map_values(|b: Seq<u8>| ascii_text(b))
}

/// What a payload stands for as a tag list.
pub open spec fn tags_of_wire(p: Seq<u8>) -> Result<Seq<Seq<char>>, LayoutError> {
    let s = parts(trimmed(p));
    if p.len() == 0 {
        Err(LayoutError::EmptyTags)
    } else if p.len() > 1536 {
        Err(LayoutError::TagsTooLong)
    } else if s.len() > 32 {
        Err(LayoutError::TooManyTags)
    } else if !all_tags(part_texts(s)) {
        Err(LayoutError::BadTag)
    } else {
        Ok(part_texts(s))
    }
}

/// There is always a last part.
proof fn parts_nonempty(b: Seq<u8>)
    ensures
        parts(b).len() >= 1,
    decreases b.len(),
{
    if b.len() > 0 {
        parts_nonempty(b.drop_last());
    }
}

/// A tag at the end goes to the last part.
proof fn parts_of_tag(b: Seq<u8>, t: Seq<char>, n: nat)
    requires
        n <= t.len(),
        forall|i: int| 0 <= i < t.len() ==> tag_char(#[trigger] t[i]),
    ensures
        parts(b + ascii(t).subrange(0, n as int)) == parts(b).drop_last().push(parts(b).last() + ascii(t).subrange(0, n as int)),
    decreases n,
{
    parts_nonempty(b);
    let all = ascii(t).subrange(0, n as int);
    if n == 0 {
        assert(b + all =~= b);
        assert(parts(b).last() + all =~= parts(b).last());
        assert(parts(b).drop_last().push(parts(b).last()) =~= parts(b));
    } else {
        parts_of_tag(b, t, (n - 1) as nat);
        let less = ascii(t).subrange(0, n - 1);
        assert((b + all).drop_last() =~= b + less);
        assert(tag_char(t[n - 1]));
        assert((b + all).last() == t[n - 1] as u8);
        let s = parts(b + less);
        assert(s.drop_last() =~= parts(b).drop_last());
        assert(s.last() =~= parts(b).last() + less);
        assert(s.last().push((b + all).last()) =~= parts(b).last() + all);
    }
}

/// Cutting joined tags gives the tags.
proof fn parts_of_joined(tags: Seq<Seq<char>>, n: nat)
    requires
        all_tags(tags),
        1 <= n <= tags.len(),
    ensures
        parts(joined(tags, n)) == Seq::new(n, |i: int| ascii(tags[i])),
    decreases n,
{
    let t = tags[n - 1];
    assert(is_tag(t));
    assert(ascii(t).subrange(0, t.len() as int) =~= ascii(t));
    if n == 1 {
        parts_of_tag(Seq::empty(), t, t.len());
        assert(Seq::<u8>::empty() + ascii(t) =~= ascii(t));
        assert(parts(ascii(t)) =~= Seq::new(1, |i: int| ascii(tags[i])));
    } else {
        parts_of_joined(tags, (n - 1) as nat);
        let j = joined(tags, (n - 1) as nat);
        let js = j + seq![SEPARATOR];
        assert(js.drop_last() =~= j);
        assert(parts(js) == parts(j).push(Seq::empty()));
        parts_of_tag(js, t, t.len());
        assert(parts(js).drop_last() =~= parts(j));
        assert(parts(js).last() + ascii(t) =~= ascii(t));
        assert(parts(joined(tags, n)) =~= Seq::new(n, |i: int| ascii(tags[i])));
    }
}

/// Trimming takes off what was filled up.
proof fn trimmed_of_padded(b: Seq<u8>, n: nat)
    requires
        b.len() > 0,
        b.last() != 0,
    ensures
        trimmed(b + wire::zeros(n)) == b,
    decreases n,
{
    let p = b + wire::zeros(n);
    if n == 0 {
        assert(p =~= b);
    } else {
        assert(p.drop_last() =~= b + wire::zeros((n - 1) as nat));
        trimmed_of_padded(b, (n - 1) as nat);
    }
}

/// The last byte of joined tags is the last character of the last tag.
proof fn joined_last(tags: Seq<Seq<char>>, n: nat)
    requires
        all_tags(tags),
        1 <= n <= tags.len(),
    ensures
        joined(tags, n).len() > 0,
        joined(tags, n).last() != 0,
{
    let t = tags[n - 1];
    assert(is_tag(t));
    assert(tag_char(t[t.len() - 1]));
    assert(ascii(t).last() != 0);
}

/// Reading tags gives back what was written.
pub proof fn tags_round_trip(tags: Seq<Seq<char>>)
    requires
        tags_wire(tags) is Ok,
    ensures
        tags_wire(tags)->Ok_0.len() % 8 == 0,
        tags_of_wire(tags_wire(tags)->Ok_0) == Ok::<Seq<Seq<char>>, LayoutError>(tags),
{
    let n = tags.len();
    let j = joined(tags, n);
    joined_last(tags, n);
    parts_of_joined(tags, n);
    trimmed_of_padded(j, ((8 - j.len() % 8) % 8) as nat);
    let s = parts(j);
    assert forall|i: int| 0 <= i < n implies #[trigger] part_texts(s)[i] == tags[i] by {
        let t = tags[i];
        assert(is_tag(t));
        assert forall|k: int| 0 <= k < t.len() implies ascii_text(ascii(t))[k] == t[k] by {
            assert(tag_char(t[k]));
        }
        assert(ascii_text(ascii(t)) =~= t);
    }
    assert(part_texts(s) =~= tags);
}

/// Whether an ASCII byte can stand in a tag.
fn tag_byte(b: u8) -> (r: bool)
    ensures
        b < 128 ==> r == tag_char(b as char),
        r ==> b < 128,
{
    (97 <= b && b <= 122) || (48 <= b && b <= 57) || b == 45
}

/// Whether bytes are a tag.
fn tag_bytes(b: &[u8]) -> (r: bool)
    ensures
        r == is_tag(ascii_text(b@)),
        r ==> forall|i: int| 0 <= i < b@.len() ==> #[trigger] b@[i] < 128,
{
    let n: usize = b.len();
    if n == 0 || n > 48 {
        return false;
    }
    let ghost t = ascii_text(b@);
    let mut i: usize = 0;
    while i < n
        invariant
            i <= n,
            n == b@.len(),
            t == ascii_text(b@),
            forall|j: int| 0 <= j < i ==> #[trigger] b@[j] < 128 && tag_char(t[j]),
        decreases n - i,
    {
        if !tag_byte(b[i]) {
            proof {
                assert(!tag_char(t[i as int])) by {
                    let v = b@[i as int];
                    if v >= 128 {
                        assert(v as char as u32 == v);
                    }
                }
            }
            return false;
        }
        i = i + 1;
    }
    assert(t[0] == b@[0] as char && t[n - 1] == b@[n - 1] as char);
    b[0] != 45 && b[n - 1] != 45
}

impl SemanticTags {
    /// Greatest number of bytes of a tag.
    pub const MAX_TAG_LEN: usize = 48;

    /// Greatest number of tags.
    pub const MAX_TAGS: usize = 32;

    /// Greatest number of bytes of a payload.
    pub const MAX_PAYLOAD: usize = 1536;

    /// Whether a text is a tag.
    pub fn check_tag(t: &str) -> (r: Result<(), LayoutError>)
        ensures
            r == if is_tag(t@) {
                Ok::<(), LayoutError>(())
            } else {
                Err(LayoutError::BadTag)
            },
    {
        if !t.is_ascii() {
            proof {
                if is_tag(t@) {
                    assert forall|i: int| 0 <= i < t@.len() implies 0 <= #[trigger] t@[i] < 128 by {
                        assert(tag_char(t@[i]));
                    }
                }
            }
            return Err(LayoutError::BadTag);
        }
        let b: &[u8] = t.as_bytes();
        assert(ascii_text(b@) =~= t@);
        if tag_bytes(b) {
            Ok(())
        } else {
            Err(LayoutError::BadTag)
        }
    }

    /// The payload of a list of tags.
    pub fn encode(tags: &[&str]) -> (r: Result<Vec<u8>, LayoutError>)
        ensures
            match r {
                Ok(p) => tags_wire(tags@.map_values(|s: &str| s@)) == Ok::<Seq<u8>, LayoutError>(p@),
                Err(e) => tags_wire(tags@.map_values(|s: &str| s@)) == Err::<Seq<u8>, LayoutError>(e),
            },
    {
        let ghost views = tags@.map_values(|s: &str| s@);
        if tags.len() == 0 {
            return Err(LayoutError::EmptyTags);
        }
        if tags.len() > 32 {
            return Err(LayoutError::TooManyTags);
        }
        let mut i: usize = 0;
        while i < tags.len()
            invariant
                i <= tags.len(),
                1 <= tags.len() <= 32,
                views == tags@.map_values(|s: &str| s@),
                forall|j: int| 0 <= j < i ==> is_tag(#[trigger] views[j]),
            decreases tags.len() - i,
        {
            assert(views[i as int] == tags@[i as int]@);
            match SemanticTags::check_tag(tags[i]) {
                Ok(_) => {},
                Err(e) => {
                    return Err(e);
                },
            }
            i = i + 1;
        }
        let mut p = join(tags);
        if p.len() > 1536 {
            return Err(LayoutError::TagsTooLong);
        }
        let fill: usize = (8 - p.len() % 8) % 8;
        wire::put_zeros(&mut p, fill);
        Ok(p)
    }

    /// The tags of a payload.
    pub fn decode(p: &[u8]) -> (r: Result<Vec<String>, LayoutError>)
        ensures
            match r {
                Ok(v) => tags_of_wire(p@) == Ok::<Seq<Seq<char>>, LayoutError>(v@.map_values(|s: String| s@)),
                Err(e) => tags_of_wire(p@) == Err::<Seq<Seq<char>>, LayoutError>(e),
            },
    {
        if p.len() == 0 {
            return Err(LayoutError::EmptyTags);
        }
        if p.len() > 1536 {
            return Err(LayoutError::TagsTooLong);
        }
        let t = trim_pad(p);
        let pieces = cut(t);
        if pieces.len() > 32 {
            return Err(LayoutError::TooManyTags);
        }
        let ghost s = parts(trimmed(p@));
        let mut out: Vec<String> = Vec::new();
        let mut i: usize = 0;
        while i < pieces.len()
            invariant
                i <= pieces.len() <= 32,
                0 < p@.len() <= 1536,
                s == parts(trimmed(p@)),
                s == wire::contents(pieces@),
                out@.len() == i,
                forall|j: int| 0 <= j < i ==> is_tag(#[trigger] part_texts(s)[j]) && out@[j]@ == part_texts(s)[j],
            decreases pieces.len() - i,
        {
            assert(s[i as int] == pieces@[i as int]@);
            assert(part_texts(s)[i as int] == ascii_text(s[i as int]));
            if !tag_bytes(pieces[i].as_slice()) {
                return Err(LayoutError::BadTag);
            }
            out.push(ascii_string(pieces[i].as_slice()));
            i = i + 1;
        }
        assert(out@.map_values(|x: String| x@) =~= part_texts(s));
        Ok(out)
    }
}

/// The text of ASCII bytes.
fn ascii_string(b: &[u8]) -> (s: String)
    requires
        forall|i: int| 0 <= i < b@.len() ==> #[trigger] b@[i] < 128,
    ensures
        s@ == ascii_text(b@),
{
    let mut s = String::new();
    let mut i: usize = 0;
    while i < b.len()
        invariant
            i <= b.len(),
            s@ == ascii_text(b@.subrange(0, i as int)),
        decreases b.len() - i,
    {
        s.push(b[i] as char);
        i = i + 1;
        assert(s@ =~= ascii_text(b@.subrange(0, i as int)));
    }
    assert(b@.subrange(0, i as int) =~= b@);
    s
}

/// Tags with separators between them.
fn join(tags: &[&str]) -> (p: Vec<u8>)
    requires
        tags@.len() > 0,
        all_tags(tags@.map_values(|s: &str| s@)),
    ensures
        p@ == joined(tags@.map_values(|s: &str| s@), tags@.len()),
{
    let ghost views = tags@.map_values(|s: &str| s@);
    let mut p: Vec<u8> = Vec::new();
    let mut i: usize = 0;
    while i < tags.len()
        invariant
            i <= tags.len(),
            views == tags@.map_values(|s: &str| s@),
            all_tags(views),
            p@ == joined(views, i as nat),
        decreases tags.len() - i,
    {
        assert(views[i as int] == tags@[i as int]@);
        assert(is_tag(views[i as int]));
        if i > 0 {
            p.push(SEPARATOR);
        }
        let b: &[u8] = tags[i].as_bytes();
        proof {
            let t = views[i as int];
            assert(vstd::utf8::is_ascii_chars(t)) by {
                assert forall|k: int| 0 <= k < t.len() implies 0 <= #[trigger] t[k] < 128 by {
                    assert(tag_char(t[k]));
                }
            }
            vstd::utf8::is_ascii_chars_encode_utf8(t);
            assert(b@ =~= ascii(t));
        }
        wire::put_bytes(&mut p, b);
        i = i + 1;
        assert(p@ =~= joined(views, i as nat));
    }
    p
}

/// The bytes without the zeros at their end.
fn trim_pad(p: &[u8]) -> (t: &[u8])
    ensures
        t@ == trimmed(p@),
{
    let mut end: usize = p.len();
    assert(p@.subrange(0, end as int) =~= p@);
    while end > 0 && p[end - 1] == 0
        invariant
            end <= p.len(),
            trimmed(p@.subrange(0, end as int)) == trimmed(p@),
        decreases end,
    {
        assert(p@.subrange(0, end as int).drop_last() =~= p@.subrange(0, end - 1));
        end = end - 1;
    }
    vstd::slice::slice_subrange(p, 0, end)
}

/// The bytes between separators.
fn cut(b: &[u8]) -> (v: Vec<Vec<u8>>)
    ensures
        wire::contents(v@) == parts(b@),
{
    let mut v: Vec<Vec<u8>> = Vec::new();
    let mut cur: Vec<u8> = Vec::new();
    let mut i: usize = 0;
    assert(b@.subrange(0, 0) =~= Seq::empty());
    assert(wire::contents(v@).push(cur@) =~= parts(b@.subrange(0, 0)));
    while i < b.len()
        invariant
            i <= b.len(),
            wire::contents(v@).push(cur@) == parts(b@.subrange(0, i as int)),
        decreases b.len() - i,
    {
        let ghost before = wire::contents(v@);
        let ghost last = cur@;
        proof {
            let q = b@.subrange(0, i + 1);
            assert(q.drop_last() =~= b@.subrange(0, i as int));
            assert(before.push(last).drop_last() =~= before);
        }
        if b[i] == SEPARATOR {
            v.push(cur);
            cur = Vec::new();
            assert(wire::contents(v@) =~= before.push(last));
        } else {
            cur.push(b[i]);
        }
        i = i + 1;
        assert(wire::contents(v@).push(cur@) =~= parts(b@.subrange(0, i as int)));
    }
    assert(b@.subrange(0, i as int) =~= b@);
    let ghost before = wire::contents(v@);
    let ghost last = cur@;
    v.push(cur);
    assert(wire::contents(v@) =~= before.push(last));
    v
}

} // verus!
