//! Sets of characters, in which the laws of the library are stated.

use vstd::prelude::*;

verus! {

/// `0` to `9`.
pub open spec fn digit(c: char) -> bool {
    '0' <= c <= '9'
}

/// `A` to `Z` and `a` to `z`.
pub open spec fn letter(c: char) -> bool {
    'A' <= c <= 'Z' || 'a' <= c <= 'z'
}

/// A letter, a digit or `_`.
pub open spec fn word(c: char) -> bool {
    letter(c) || digit(c) || c == '_'
}

/// A letter, a digit, `_`, `:` or `'`.
pub open spec fn qualified(c: char) -> bool {
    word(c) || c == ':' || c == '\''
}

/// `.` or `_`.
pub open spec fn separator(c: char) -> bool {
    c == '.' || c == '_'
}

/// A digit, `.` or `_`.
pub open spec fn number(c: char) -> bool {
    digit(c) || separator(c)
}

/// `v` or `V`.
pub open spec fn vee(c: char) -> bool {
    c == 'v' || c == 'V'
}

/// `%`, `$` or `@`.
pub open spec fn reference(c: char) -> bool {
    c == '%' || c == '$' || c == '@'
}

/// `'` or `"`.
pub open spec fn quote(c: char) -> bool {
    c == '\'' || c == '"'
}

/// `(`, `[` or `{`.
pub open spec fn opening(c: char) -> bool {
    c == '(' || c == '[' || c == '{'
}

/// `)`, `]` or `}`.
pub open spec fn closing(c: char) -> bool {
    c == ')' || c == ']' || c == '}'
}

/// Unicode white space.
pub open spec fn white(c: char) -> bool {
    let v = c as u32;
    ||| v <= 0x20 && (v == 0x20 || 0x9 <= v <= 0xd)
    ||| v == 0x85 || v == 0xa0 || v == 0x1680
    ||| 0x2000 <= v <= 0x200a
    ||| v == 0x2028 || v == 0x2029 || v == 0x202f || v == 0x205f || v == 0x3000
}

/// Whether every character of `s` is white space.
pub open spec fn all_white(s: Seq<char>) -> bool {
    forall|i: int| 0 <= i < s.len() ==> white(#[trigger] s[i])
}

/// Whether `part` stands in `s` from position `i` on, character by character.
pub open spec fn stands_at(s: Seq<char>, part: Seq<char>, i: int) -> bool {
    &&& 0 <= i
    &&& i + part.len() <= s.len()
    &&& forall|k: int| 0 <= k < part.len() ==> s[i + k] == #[trigger] part[k]
}

/// Which code points the sets hold.
pub proof fn law_code_points(c: char)
    ensures
        ({
            let v = c as u32;
            &&& digit(c) <==> 0x30 <= v <= 0x39
            &&& letter(c) <==> 0x41 <= v <= 0x5a || 0x61 <= v <= 0x7a
            &&& word(c) <==> 0x30 <= v <= 0x39 || 0x41 <= v <= 0x5a || v == 0x5f || 0x61 <= v
                <= 0x7a
            &&& qualified(c) <==> v == 0x27 || 0x30 <= v <= 0x3a || 0x41 <= v <= 0x5a || v == 0x5f
                || 0x61 <= v <= 0x7a
            &&& separator(c) <==> v == 0x2e || v == 0x5f
            &&& number(c) <==> v == 0x2e || 0x30 <= v <= 0x39 || v == 0x5f
            &&& vee(c) <==> v == 0x56 || v == 0x76
            &&& reference(c) <==> v == 0x24 || v == 0x25 || v == 0x40
            &&& quote(c) <==> v == 0x22 || v == 0x27
            &&& opening(c) <==> v == 0x28 || v == 0x5b || v == 0x7b
            &&& closing(c) <==> v == 0x29 || v == 0x5d || v == 0x7d
            &&& white(c) <==> 0x9 <= v <= 0xd || v == 0x20 || v == 0x85 || v == 0xa0 || v == 0x1680
                || 0x2000 <= v <= 0x200a || 0x2028 <= v <= 0x2029 || v == 0x202f || v == 0x205f || v
                == 0x3000
        }),
{
}

} // verus!
