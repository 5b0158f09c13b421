//! Perl module names and the files that they stand for.

use crate::alphabet;
use crate::path;
use crate::path::FilePath;
use crate::text;
use vstd::prelude::*;
use vstd::slice::slice_subrange;

verus! {

/// The length of the part of `name` before its first `::`.
pub open spec fn segment_len(name: Seq<char>) -> nat
    decreases name.len(),
{
    if name.len() == 0 || text::starts_with(name, "::"@) {
        0
    } else {
        1 + segment_len(name.drop_first())
    }
}

/// The parts of `name` between its `::`, in order.
pub open spec fn segments(name: Seq<char>) -> Seq<Seq<char>>
    decreases name.len(),
{
    let n = segment_len(name) as int;
    if n + 2 > name.len() {
        seq![name]
    } else {
        seq![name.take(n)] + segments(name.skip(n + 2))
    }
}

/// Whether `segment` is an identifier: a letter or `_`, then letters, digits and `_`.
pub open spec fn is_identifier(segment: Seq<char>) -> bool {
    &&& segment.len() > 0
    &&& !text::is_digit(segment[0])
    &&& forall|i: int| 0 <= i < segment.len() ==> text::is_word(#[trigger] segment[i])
}

/// Whether every item of `list` is an identifier.
pub open spec fn all_identifiers(list: Seq<Seq<char>>) -> bool {
    forall|i: int| 0 <= i < list.len() ==> is_identifier(#[trigger] list[i])
}

/// Whether `name` is a valid module name: identifiers with `::` between them.
pub open spec fn is_module_name(name: Seq<char>) -> bool {
    all_identifiers(segments(name))
}

/// The file of the module `name` below a directory of the module search path, as
/// text: one directory for each segment but the last, which names the `.pm` file.
pub open spec fn module_file(name: Seq<char>) -> Seq<char> {
    text::join(segments(name), seq!['/']) + ".pm"@
}

/// Turns a module name (`Foo::Bar`) into its relative file path (`Foo/Bar.pm`), or
/// gives `None` when the name is not a valid `::`-separated identifier.
pub fn module_relative_path(name: &str) -> (path: Option<FilePath>)
    ensures
        path is Some <==> is_module_name(name@),
        path matches Some(p) ==> p@ == vstd::utf8::encode_utf8(module_file(name@)),
{
    let chars = text::chars_of(name);
    let mut file = String::new();
    let mut rest: &[char] = chars.as_slice();
    loop
        invariant_except_break
            file@ + text::join(segments(rest@), seq!['/']) == text::join(
                segments(name@),
                seq!['/'],
            ),
            is_module_name(name@) == all_identifiers(segments(rest@)),
        ensures
            is_module_name(name@),
            file@ == text::join(segments(name@), seq!['/']),
        decreases rest@.len(),
    {
        let n = count_segment(rest);
        let segment = slice_subrange(rest, 0, n);
        let ghost all = segments(rest@);
        assert(all[0] == segment@) by {
            if n == rest@.len() {
                assert(segment@ == rest@);
            }
        }
        if !identifier(segment) {
            return None;
        }
        let part = text::string_of(segment);
        let ghost before = file@;
        file.append(part.as_str());
        if n == rest.len() {
            assert(all == seq![segment@]);
            break;
        }
        file.push('/');
        rest = slice_subrange(rest, n + 2, rest.len());
        proof {
            assert(all == seq![segment@] + segments(rest@));
            assert(all.drop_first() == segments(rest@));
            lemma_segments_non_empty(rest@);
            assert(file@ == before + segment@ + seq!['/']);
            assert(before + text::join(all, seq!['/']) == file@ + text::join(
                segments(rest@),
                seq!['/'],
            ));
            assert forall|i: int| 0 <= i < segments(rest@).len() && all_identifiers(all) implies is_identifier(
                #[trigger] segments(rest@)[i],
            ) by {
                assert(all[i + 1] == segments(rest@)[i]);
            }
        }
    }
    file.append(".pm");
    Some(FilePath::new(file.as_str()))
}

proof fn lemma_segments_non_empty(name: Seq<char>)
    ensures
        segments(name).len() > 0,
{
}

proof fn lemma_segment_len_is(name: Seq<char>, k: int)
    requires
        0 <= k <= name.len(),
        forall|i: int| 0 <= i < k ==> !text::occurs_at(name, "::"@, i),
        k < name.len() ==> text::occurs_at(name, "::"@, k),
    ensures
        segment_len(name) == k,
    decreases k,
{
    if k > 0 {
        let rest = name.drop_first();
        assert(!text::occurs_at(name, "::"@, 0));
        assert forall|i: int| 0 <= i < rest.len() implies text::occurs_at(rest, "::"@, i)
            == text::occurs_at(name, "::"@, i + 1) by {
            if i + "::"@.len() <= rest.len() {
                assert(rest.subrange(i, i + "::"@.len()) == name.subrange(
                    i + 1,
                    i + 1 + "::"@.len(),
                ));
            }
        }
        lemma_segment_len_is(rest, k - 1);
    }
}

/// Counts the characters of `name` before its first `::`.
fn count_segment(name: &[char]) -> (n: usize)
    ensures
        n == segment_len(name@),
        n <= name@.len(),
        n < name@.len() ==> n + 2 <= name@.len(),
{
    proof {
        reveal_strlit("::");
    }
    let mut n: usize = 0;
    while n < name.len() && !text::found_at(name, "::", n)
        invariant
            n <= name@.len(),
            forall|i: int| 0 <= i < n ==> !text::occurs_at(name@, "::"@, i),
        decreases name@.len() - n,
    {
        n += 1;
    }
    proof {
        lemma_segment_len_is(name@, n as int);
    }
    n
}

/// Tells whether `segment` is an identifier.
fn identifier(segment: &[char]) -> (b: bool)
    ensures
        b == is_identifier(segment@),
{
    if segment.len() == 0 || text::digit(segment[0]) {
        return false;
    }
    let mut i: usize = 0;
    while i < segment.len()
        invariant
            i <= segment@.len(),
            forall|j: int| 0 <= j < i ==> text::is_word(#[trigger] segment@[j]),
        decreases segment@.len() - i,
    {
        if !text::word(segment[i]) {
            return false;
        }
        i += 1;
    }
    true
}

proof fn lemma_segment_len(name: Seq<char>)
    ensures
        segment_len(name) <= name.len(),
        segment_len(name) < name.len() ==> text::occurs_at(name, "::"@, segment_len(name) as int),
    decreases name.len(),
{
    if name.len() > 0 && !text::starts_with(name, "::"@) {
        let rest = name.drop_first();
        lemma_segment_len(rest);
        let n = segment_len(rest) as int;
        if n < rest.len() {
            assert(rest.subrange(n, n + "::"@.len()) == name.subrange(
                n + 1,
                n + 1 + "::"@.len(),
            ));
        }
    }
}

/// The segments of a name, with `::` put between them again, are the name.
pub proof fn law_segments_make_up_the_name(name: Seq<char>)
    ensures
        text::join(segments(name), "::"@) == name,
    decreases name.len(),
{
    reveal_strlit("::");
    lemma_segment_len(name);
    let n = segment_len(name) as int;
    if n + 2 <= name.len() {
        let rest = name.skip(n + 2);
        law_segments_make_up_the_name(rest);
        lemma_segments_non_empty(rest);
        assert(segments(name).drop_first() == segments(rest));
        assert(name.subrange(n, n + 2) == "::"@);
        assert(name == name.take(n) + "::"@ + rest);
    }
}

/// Identifiers with `::` between them are a module name, and its segments are those
/// identifiers.
pub proof fn law_identifiers_make_a_name(list: Seq<Seq<char>>)
    requires
        list.len() > 0,
        all_identifiers(list),
    ensures
        segments(text::join(list, "::"@)) == list,
        is_module_name(text::join(list, "::"@)),
    decreases list.len(),
{
    reveal_strlit("::");
    let name = text::join(list, "::"@);
    let first = list[0];
    let n = first.len() as int;
    assert(is_identifier(first));
    assert forall|i: int| 0 <= i < n implies !text::occurs_at(name, "::"@, i) by {
        assert(name[i] == first[i]);
        assert(text::is_word(first[i]));
        if text::occurs_at(name, "::"@, i) {
            assert(name.subrange(i, i + 2)[0] == "::"@[0]);
        }
    }
    if list.len() == 1 {
        lemma_segment_len_is(name, n);
        assert(list == seq![first]);
    } else {
        let rest = list.drop_first();
        assert forall|i: int| 0 <= i < rest.len() implies is_identifier(#[trigger] rest[i]) by {
            assert(rest[i] == list[i + 1]);
        }
        law_identifiers_make_a_name(rest);
        assert(name.subrange(n, n + 2) == "::"@);
        lemma_segment_len_is(name, n);
        assert(name.take(n) == first);
        assert(name.skip(n + 2) == text::join(rest, "::"@));
        assert(list == seq![first] + rest);
    }
}

/// The names of the directories and of the file that a module with these segments is
/// found by.
pub open spec fn file_names(list: Seq<Seq<char>>) -> Seq<Seq<u8>> {
    Seq::new(
        list.len(),
        |i: int|
            vstd::utf8::encode_utf8(
                if i < list.len() - 1 {
                    list[i]
                } else {
                    list[i] + ".pm"@
                },
            ),
    )
}

/// Identifier characters and `.`, not starting with a `.`, are one name of a path.
proof fn lemma_ascii_name(s: Seq<char>)
    requires
        s.len() > 0,
        s[0] != '.',
        forall|i: int| 0 <= i < s.len() ==> (text::is_word(#[trigger] s[i]) || s[i] == '.'),
    ensures
        vstd::utf8::is_ascii_chars(s),
        path::names(vstd::utf8::encode_utf8(s)) == seq![vstd::utf8::encode_utf8(s)],
        !path::is_absolute(vstd::utf8::encode_utf8(s)),
{
    assert(vstd::utf8::is_ascii_chars(s));
    vstd::utf8::is_ascii_chars_encode_utf8(s);
    let b = vstd::utf8::encode_utf8(s);
    assert(b.len() == s.len());
    assert forall|i: int| 0 <= i < b.len() implies b[i] != path::SLASH by {
        assert(b[i] == s[i] as u8);
        assert(text::is_word(s[i]) || s[i] == '.');
    }
    assert(b[0] == s[0] as u8);
    assert(b[0] != path::DOT);
    path::lemma_names_single(b);
}

proof fn lemma_file_names(list: Seq<Seq<char>>)
    requires
        list.len() > 0,
        all_identifiers(list),
    ensures
        ({
            let file = text::join(list, seq!['/']) + ".pm"@;
            let bytes = vstd::utf8::encode_utf8(file);
            &&& vstd::utf8::is_ascii_chars(file)
            &&& path::names(bytes) == file_names(list)
            &&& !path::is_absolute(bytes)
        }),
    decreases list.len(),
{
    reveal_strlit(".pm");
    let first = list[0];
    let file = text::join(list, seq!['/']) + ".pm"@;
    assert(is_identifier(first));
    if list.len() == 1 {
        assert(file == first + ".pm"@);
        assert forall|i: int| 0 <= i < file.len() implies (text::is_word(#[trigger] file[i])
            || file[i] == '.') by {
            if i < first.len() {
                assert(text::is_word(first[i]));
            }
        }
        assert(text::is_word(first[0]));
        lemma_ascii_name(file);
        assert(file_names(list) == seq![vstd::utf8::encode_utf8(file)]);
    } else {
        let rest = list.drop_first();
        assert forall|i: int| 0 <= i < rest.len() implies is_identifier(#[trigger] rest[i]) by {
            assert(rest[i] == list[i + 1]);
        }
        lemma_file_names(rest);
        assert forall|i: int| 0 <= i < first.len() implies (text::is_word(#[trigger] first[i])
            || first[i] == '.') by {}
        assert(text::is_word(first[0]));
        lemma_ascii_name(first);
        let tail = text::join(rest, seq!['/']) + ".pm"@;
        assert(file == first + seq!['/'] + tail);
        assert(vstd::utf8::is_ascii_chars(file));
        vstd::utf8::is_ascii_chars_encode_utf8(file);
        vstd::utf8::is_ascii_chars_encode_utf8(first);
        vstd::utf8::is_ascii_chars_encode_utf8(tail);
        let b = vstd::utf8::encode_utf8(file);
        let bf = vstd::utf8::encode_utf8(first);
        let bt = vstd::utf8::encode_utf8(tail);
        assert(b == bf + seq![path::SLASH] + bt);
        path::lemma_names_concat(bf, bt);
        assert(file_names(list) == seq![bf] + file_names(rest)) by {
            assert forall|i: int| 0 <= i < rest.len() implies file_names(list)[i + 1]
                == #[trigger] file_names(rest)[i] by {
                assert(rest[i] == list[i + 1]);
            }
            assert(file_names(list) == seq![bf] + file_names(rest));
        }
        assert(b[0] == bf[0]);
    }
}

/// In whatever directory a module is looked for, its file stands below that directory,
/// one directory down for each segment but the last.
pub proof fn law_file_is_below_directory(dir: Seq<u8>, name: Seq<char>)
    requires
        is_module_name(name),
    ensures
        ({
            let file = path::joined(dir, vstd::utf8::encode_utf8(module_file(name)));
            &&& path::names(file) == path::names(dir) + file_names(segments(name))
            &&& path::is_absolute(file) == path::is_absolute(dir)
        }),
{
    lemma_segments_non_empty(name);
    lemma_file_names(segments(name));
    path::law_join_appends_names(dir, vstd::utf8::encode_utf8(module_file(name)));
}

/// No two modules share a file, however the paths of their files are written.
pub proof fn law_files_are_distinct(a: Seq<char>, b: Seq<char>)
    requires
        is_module_name(a),
        is_module_name(b),
        path::same_path(
            vstd::utf8::encode_utf8(module_file(a)),
            vstd::utf8::encode_utf8(module_file(b)),
        ),
    ensures
        a == b,
{
    let sa = segments(a);
    let sb = segments(b);
    lemma_segments_non_empty(a);
    lemma_segments_non_empty(b);
    lemma_file_names(sa);
    lemma_file_names(sb);
    assert(file_names(sa) == file_names(sb));
    let n = sa.len() as int;
    assert(file_names(sa).len() == n && file_names(sb).len() == sb.len());
    assert forall|i: int| 0 <= i < n implies sa[i] == sb[i] by {
        let x = if i < n - 1 {
            sa[i]
        } else {
            sa[i] + ".pm"@
        };
        let y = if i < n - 1 {
            sb[i]
        } else {
            sb[i] + ".pm"@
        };
        assert(file_names(sa)[i] == vstd::utf8::encode_utf8(x));
        assert(file_names(sb)[i] == vstd::utf8::encode_utf8(y));
        vstd::utf8::encode_utf8_decode_utf8(x);
        vstd::utf8::encode_utf8_decode_utf8(y);
        assert(x == y);
        if i == n - 1 {
            assert(sa[i] == x.take(x.len() - ".pm"@.len()));
            assert(sb[i] == y.take(y.len() - ".pm"@.len()));
        }
    }
    assert(sa == sb);
    law_segments_make_up_the_name(a);
    law_segments_make_up_the_name(b);
}

/// Whether `segment` is a letter or `_` and then any letters, digits and `_`.
pub open spec fn is_plain_segment(segment: Seq<char>) -> bool {
    &&& segment.len() > 0
    &&& alphabet::letter(segment[0]) || segment[0] == '_'
    &&& forall|i: int| 0 <= i < segment.len() ==> alphabet::word(#[trigger] segment[i])
}

/// Whether `list` is not empty and every item of it is a letter or `_` and then any letters,
/// digits and `_`.
pub open spec fn are_plain_segments(list: Seq<Seq<char>>) -> bool {
    list.len() > 0 && forall|i: int| 0 <= i < list.len() ==> is_plain_segment(#[trigger] list[i])
}

/// A segment is accepted exactly if it is a letter or `_` and then any letters, digits and
/// `_`, in any order.
pub proof fn law_segments_are_words(segment: Seq<char>)
    ensures
        is_identifier(segment) == is_plain_segment(segment),
{
    if is_identifier(segment) {
        assert(text::is_word(segment[0]));
        assert forall|i: int| 0 <= i < segment.len() implies alphabet::word(
            #[trigger] segment[i],
        ) by {
            assert(text::is_word(segment[i]));
        }
    }
    if is_plain_segment(segment) {
        assert forall|i: int| 0 <= i < segment.len() implies text::is_word(
            #[trigger] segment[i],
        ) by {
            assert(alphabet::word(segment[i]));
        }
    }
}

/// Every text made of such segments with `::` between them is a module name, and its file is
/// made of the same segments with `/` between them and `.pm` at the end.
pub proof fn law_names_have_files(list: Seq<Seq<char>>)
    requires
        are_plain_segments(list),
    ensures
        is_module_name(text::join(list, "::"@)),
        module_file(text::join(list, "::"@)) == text::join(list, seq!['/']) + ".pm"@,
{
    assert forall|i: int| 0 <= i < list.len() implies is_identifier(#[trigger] list[i]) by {
        law_segments_are_words(list[i]);
        assert(is_plain_segment(list[i]));
    }
    law_identifiers_make_a_name(list);
}

/// Nothing else is a module name.
pub proof fn law_names_are_segments(name: Seq<char>)
    ensures
        is_module_name(name) <==> exists|list: Seq<Seq<char>>|
            are_plain_segments(list) && name == #[trigger] text::join(list, "::"@),
{
    if is_module_name(name) {
        let list = segments(name);
        lemma_segments_non_empty(name);
        law_segments_make_up_the_name(name);
        assert forall|i: int| 0 <= i < list.len() implies is_plain_segment(#[trigger] list[i]) by {
            law_segments_are_words(list[i]);
            assert(is_identifier(list[i]));
        }
        assert(are_plain_segments(list));
        assert(name == text::join(list, "::"@));
    }
    if exists|list: Seq<Seq<char>>|
        are_plain_segments(list) && name == #[trigger] text::join(list, "::"@) {
        let list = choose|list: Seq<Seq<char>>|
            are_plain_segments(list) && name == #[trigger] text::join(list, "::"@);
        law_names_have_files(list);
    }
}

} // verus!
