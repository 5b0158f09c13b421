//! What the library takes on trust: declarations for the functions of the standard
//! library and of the `which` crate that it calls and that carry no specification of
//! their own. What depends on the platform, the environment or the disk is not said;
//! the contracts only speak of a value as one that such a call gave.

use crate::path::FilePath;
use std::borrow::Cow;
use vstd::prelude::*;

verus! {

/// The Unicode `White_Space` property.
pub open spec fn is_white_space(c: char) -> bool {
    let v = c as u32;
    ||| 0x9 <= v <= 0xd
    ||| v == 0x20
    ||| v == 0x85
    ||| v == 0xa0
    ||| v == 0x1680
    ||| 0x2000 <= v <= 0x200a
    ||| v == 0x2028
    ||| v == 0x2029
    ||| v == 0x202f
    ||| v == 0x205f
    ||| v == 0x3000
}

/// `char::is_whitespace` tells whether a character has the Unicode `White_Space`
/// property.
pub assume_specification[ char::is_whitespace ](c: char) -> (b: bool)
    ensures
        b == is_white_space(c),
;

/// `String::push` appends one character to the end of a string.
pub assume_specification[ String::push ](s: &mut String, ch: char)
    ensures
        final(s)@ == old(s)@.push(ch),
;

/// The text that `String::from_utf8_lossy` makes of `bytes`.
pub uninterp spec fn utf8_lossy(bytes: Seq<u8>) -> Seq<char>;

/// `String::from_utf8_lossy` decodes bytes as UTF-8 and puts a replacement
/// character for every invalid sequence, so the text depends on the bytes alone
/// and bytes that are valid UTF-8 decode to what they encode.
pub assume_specification<'a>[ String::from_utf8_lossy ](v: &'a [u8]) -> (decoded: Cow<'a, str>)
    ensures
        decoded@ == utf8_lossy(v@),
        vstd::utf8::valid_utf8(v@) ==> decoded@ == vstd::utf8::decode_utf8(v@),
;

/// Reads `std::path::MAIN_SEPARATOR`, the character that separates the names in a path
/// on the platform that the program is built for. It differs from one platform to
/// another, so nothing is claimed of it.
#[verifier::external_body]
pub(crate) fn main_separator() -> (c: char) {
    std::path::MAIN_SEPARATOR
}

/// Why `which::which` found no executable.
#[verifier::external_type_specification]
#[verifier::external_body]
pub struct ExSearchError(which::Error);

/// Calls `which::which`, which looks for an executable called `name` in the
/// directories on `PATH` and gives the path of the first one. What it finds depends on
/// the environment and on what is on disk, so nothing is claimed of it.
#[verifier::external_body]
pub(crate) fn find_on_path(name: &str) -> (found: Result<FilePath, which::Error>) {
    let path = which::which(name)?;
    Ok(FilePath { bytes: path.into_os_string().into_encoded_bytes() })
}

/// Whether `c` is what a read of the platform's main separator gave.
pub closed spec fn is_main_separator(c: char) -> bool {
    call_ensures(main_separator, (), c)
}

/// Whether `found` is what a search of `PATH` for `name` came up with.
pub closed spec fn is_found(name: &'static str, found: Result<FilePath, which::Error>) -> bool {
    call_ensures(find_on_path, (name,), found)
}

/// Reads the platform's main separator.
pub(crate) fn platform_main_separator() -> (c: char)
    ensures
        is_main_separator(c),
{
    read_with(main_separator)
}

/// Searches `PATH` for the executable `name`.
pub(crate) fn search(name: &'static str) -> (found: Result<FilePath, which::Error>)
    ensures
        is_found(name, found),
{
    search_with(find_on_path, name)
}

/// What `read` gives.
fn read_with<F: Fn() -> char>(read: F) -> (c: char)
    requires
        call_requires(read, ()),
    ensures
        call_ensures(read, (), c),
{
    read()
}

/// What `search` gives for `name`.
fn search_with<F: Fn(&'static str) -> Result<FilePath, which::Error>>(
    search: F,
    name: &'static str,
) -> (found: Result<FilePath, which::Error>)
    requires
        call_requires(search, (name,)),
    ensures
        call_ensures(search, (name,), found),
{
    search(name)
}

} // verus!
