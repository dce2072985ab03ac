//! The driver library that comes with the node.

use vstd::prelude::*;
use vstd::string::StringExecFns;
use crate::crypto;
use crate::text;
use crate::wire;

verus! {

/// The tag of a library: the first four bytes of its SHA-256 in hexadecimal.
pub open spec fn tag_of(b: Seq<u8>) -> Seq<char> {
    text::hex_text(crypto::sha256_of(b).subrange(0, 4))
}

/// The tag of a library, given its digest.
pub fn tag_of_digest(d: &[u8; 32]) -> (s: String)
    ensures
        s@ == text::hex_text(d@.subrange(0, 4)),
{
    text::hex_string(vstd::slice::slice_subrange(d.as_slice(), 0, 4))
}

/// The tag of a library.
pub fn hash_tag(b: &[u8]) -> (s: String)
    ensures
        s@ == tag_of(b@),
{
    let d = crypto::sha256(b);
    tag_of_digest(&d)
}

/// The file that a library with a tag is put in.
pub fn dll_name(tag: &str) -> (s: String)
    ensures
        s@ == "wintun-"@ + tag@ + ".dll"@,
{
    let mut s = String::new();
    s.append("wintun-");
    s.append(tag);
    s.append(".dll");
    assert(s@ =~= "wintun-"@ + tag@ + ".dll"@);
    s
}

/// Whether a file holds the library: as long, and with the same digest.
pub fn is_intact(on_disk: &[u8], expected: &[u8]) -> (r: bool)
    ensures
        r == (on_disk@.len() == expected@.len() && crypto::sha256_of(on_disk@) == crypto::sha256_of(expected@)),
        on_disk@ == expected@ ==> r,
{
    if on_disk.len() != expected.len() {
        return false;
    }
    let a = crypto::sha256(on_disk);
    let b = crypto::sha256(expected);
    wire::same_bytes(a.as_slice(), b.as_slice())
}

/// Whether a file is a library of another version.
pub open spec fn old_file(name: Seq<char>, keep: Seq<char>) -> bool {
    text::begins_with(name, "wintun-"@) && text::ends_with(name, ".dll"@) && name != keep
}

/// Whether a file is a library of another version, which can go.
pub fn is_old(name: &str, keep: &str) -> (r: bool)
    ensures
        r == old_file(name@, keep@),
{
    text::has_front(name, "wintun-") && text::has_end(name, ".dll") && !text::same_text(name, keep)
}

/// Which files are old: those named like the library, but for the one in use.
pub proof fn old_files(middle: Seq<char>, keep: Seq<char>)
    ensures
        old_file("wintun-"@ + middle + ".dll"@, keep) == ("wintun-"@ + middle + ".dll"@ != keep),
        !old_file(keep, keep),
{
    let n = "wintun-"@ + middle + ".dll"@;
    assert(n.subrange(0, "wintun-"@.len() as int) =~= "wintun-"@);
    assert(n.subrange(n.len() - ".dll"@.len(), n.len() as int) =~= ".dll"@);
}

} // verus!
