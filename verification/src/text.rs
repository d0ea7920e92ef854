//! The few operations of the standard library on characters, strings and
//! paths that the rest of the crate builds on. Their contracts are taken on
//! trust from the standard library's documentation. Paths are those of the
//! Unix systems that the daemon runs on.

use std::path::Path;
use vstd::prelude::*;

verus! {

/// The path that `Path::join` makes of a directory and a path below it.
pub uninterp spec fn joined_path(dir: Seq<char>, name: Seq<char>) -> Seq<char>;

/// The final component of a path as `Path::file_name` gives it, `None`
/// where the path has none.
pub uninterp spec fn path_file_name(path: Seq<char>) -> Option<Seq<char>>;

/// `Path::join`: the second path below the first. Both are valid UTF-8, and
/// so is what joins them.
#[verifier::external_body]
pub(crate) fn join_path(dir: &str, name: &str) -> (r: String)
    ensures
        r@ == joined_path(dir@, name@),
{
    Path::new(dir).join(name).to_string_lossy().into_owned()
}

/// `Path::file_name`: the final component of the path, if it has one. It is
/// a part of a valid UTF-8 text and so valid UTF-8 itself.
#[verifier::external_body]
pub(crate) fn file_name(path: &str) -> (r: Option<&str>)
    ensures
        r.deep_view() == path_file_name(path@),
{
    Path::new(path).file_name().and_then(|name| name.to_str())
}

/// `char::from_u32`: the character with the given scalar value, and `None`
/// for a surrogate or a number above `0x10FFFF`.
#[verifier::external_body]
pub(crate) fn char_from_u32(v: u32) -> (r: Option<char>)
    ensures
        r == (if (v < 0xD800) || (0xE000 <= v <= 0x10FFFF) {
            Some(v as char)
        } else {
            None
        }),
{
    char::from_u32(v)
}

/// `String::with_capacity`: an empty string; the capacity is a hint to the
/// allocator and nothing is claimed of it. A capacity above `isize::MAX`
/// is left out: the call would not return.
#[verifier::external_body]
pub(crate) fn string_with_capacity(capacity: usize) -> (r: String)
    requires
        capacity <= isize::MAX,
    ensures
        r@ == Seq::<char>::empty(),
{
    String::with_capacity(capacity)
}

/// A capacity that can be asked for: the wanted one where an allocation
/// can be that large, else none at all.
pub(crate) fn allocatable(wanted: usize) -> (capacity: usize)
    ensures
        capacity <= isize::MAX,
        wanted <= isize::MAX ==> capacity == wanted,
{
    if wanted <= isize::MAX as usize {
        wanted
    } else {
        0
    }
}

/// `String::push`: the character is appended at the end.
#[verifier::external_body]
pub(crate) fn push_char(s: &mut String, c: char)
    ensures
        final(s)@ == old(s)@.push(c),
{
    s.push(c)
}

/// `str::starts_with` with a string pattern: whether the text begins with
/// the prefix.
#[verifier::external_body]
pub(crate) fn starts_with(text: &str, prefix: &str) -> (r: bool)
    ensures
        r == prefix@.is_prefix_of(text@),
{
    text.starts_with(prefix)
}

/// `str::strip_prefix` with a string pattern: what follows the prefix, or
/// `None` where the text does not begin with it.
#[verifier::external_body]
pub(crate) fn strip_prefix<'a>(text: &'a str, prefix: &str) -> (r: Option<&'a str>)
    ensures
        match r {
            Some(rest) => text@ == prefix@ + rest@,
            None => !prefix@.is_prefix_of(text@),
        },
{
    text.strip_prefix(prefix)
}

/// `str::eq`: whether two texts hold the same characters.
#[verifier::external_body]
pub(crate) fn same_text(a: &str, b: &str) -> (r: bool)
    ensures
        r == (a@ == b@),
{
    a == b
}

} // verus!
