//! What a Perl interpreter reports of itself.

use crate::path::FilePath;
use crate::text;
use vstd::prelude::*;
use vstd::slice::slice_subrange;

verus! {

/// What an interpreter reports, as mathematical values.
#[verifier::ext_equal]
pub struct ConfigView {
    /// The architecture name, if one was reported.
    pub archname: Option<Seq<char>>,
    /// The module search path.
    pub inc: Seq<Seq<u8>>,
}

/// The interpreter facts cached on a `Perl`. A value with neither an architecture
/// name nor search directories means that the interpreter could not be queried.
#[derive(Debug, PartialEq, Eq)]
pub struct InterpreterConfig {
    /// `$Config{archname}`, or `None` when it was not reported.
    archname: Option<String>,
    /// Effective `@INC`, filtered to filesystem paths.
    inc: Vec<FilePath>,
}

impl View for InterpreterConfig {
    type V = ConfigView;

    closed spec fn view(&self) -> ConfigView {
        ConfigView { archname: self.archname.deep_view(), inc: self.inc.deep_view() }
    }
}

impl DeepView for InterpreterConfig {
    type V = ConfigView;

    open spec fn deep_view(&self) -> ConfigView {
        self@
    }
}

/// The configuration of an interpreter of which nothing is known.
pub open spec fn unknown_config() -> ConfigView {
    ConfigView { archname: None, inc: Seq::empty() }
}

/// Whether an `@INC` entry names a filesystem path.
pub open spec fn is_path_entry(entry: Seq<char>) -> bool {
    entry.len() > 0 && !text::contains(entry, "(0x"@)
}

/// Whether `path` spells an `@INC` entry that names a filesystem path.
pub open spec fn is_inc_path(path: Seq<u8>) -> bool {
    exists|entry: Seq<char>|
        is_path_entry(entry) && path == #[trigger] vstd::utf8::encode_utf8(entry)
}

/// Whether every directory in `inc` spells an `@INC` entry that names a filesystem path.
pub open spec fn are_inc_paths(inc: Seq<Seq<u8>>) -> bool {
    forall|i: int| 0 <= i < inc.len() ==> is_inc_path(#[trigger] inc[i])
}

/// The architecture name that a line of a report gives.
pub open spec fn archname_line(line: Seq<char>) -> Option<Seq<char>> {
    let value = text::trim(line.skip(9));
    if text::starts_with(line, "archname\t"@) && value.len() > 0 {
        Some(value)
    } else {
        None
    }
}

/// The search directory that a line of a report gives.
pub open spec fn inc_line(line: Seq<char>) -> Option<Seq<char>> {
    if text::starts_with(line, "inc\t"@) && is_path_entry(line.skip(4)) {
        Some(line.skip(4))
    } else {
        None
    }
}

/// What the lines of a report say: the last architecture name given in them, and
/// every search directory, in order.
pub open spec fn reported(lines: Seq<Seq<char>>) -> ConfigView
    decreases lines.len(),
{
    if lines.len() == 0 {
        unknown_config()
    } else {
        let before = reported(lines.drop_last());
        let line = lines.last();
        ConfigView {
            archname: if archname_line(line) is Some {
                archname_line(line)
            } else {
                before.archname
            },
            inc: match inc_line(line) {
                Some(dir) => before.inc.push(vstd::utf8::encode_utf8(dir)),
                None => before.inc,
            },
        }
    }
}

impl Default for InterpreterConfig {
    fn default() -> (config: Self)
        ensures
            config@ == unknown_config(),
    {
        let inc: Vec<FilePath> = Vec::new();
        assert(inc.deep_view() == unknown_config().inc);
        InterpreterConfig { archname: None, inc }
    }
}

impl Clone for InterpreterConfig {
    fn clone(&self) -> (copy: Self)
        ensures
            copy@ == self@,
    {
        proof {
            use_type_invariant(self);
        }
        InterpreterConfig {
            archname: match &self.archname {
                Some(name) => Some(name.clone()),
                None => None,
            },
            inc: crate::path::clone_paths(&self.inc),
        }
    }
}

impl InterpreterConfig {
    /// The search directories are filesystem paths.
    #[verifier::type_invariant]
    spec fn well_formed(self) -> bool {
        are_inc_paths(self@.inc)
    }

    /// `$Config{archname}`, or `None` when it was not reported.
    pub fn archname(&self) -> (name: Option<&str>)
        ensures
            name.deep_view() == self@.archname,
    {
        match &self.archname {
            Some(name) => Some(name.as_str()),
            None => None,
        }
    }

    /// Effective `@INC`, filtered to filesystem paths.
    pub fn inc(&self) -> (dirs: &[FilePath])
        ensures
            dirs.deep_view() == self@.inc,
            are_inc_paths(dirs.deep_view()),
    {
        proof {
            use_type_invariant(self);
        }
        self.inc.as_slice()
    }

    /// Reads the `archname` and `inc` lines that the query script prints.
    pub fn parse(output: &str) -> (config: Self)
        ensures
            config@ == reported(text::lines(output@)),
    {
        proof {
            reveal_strlit("archname\t");
            reveal_strlit("inc\t");
        }
        let chars = text::chars_of(output);
        let mut archname: Option<String> = None;
        let mut inc: Vec<FilePath> = Vec::new();
        let mut rest: &[char] = chars.as_slice();
        let ghost mut done: Seq<Seq<char>> = Seq::empty();
        assert(inc.deep_view() == reported(done).inc);
        assert(done + text::lines(rest@) == text::lines(output@));
        while rest.len() > 0
            invariant
                "archname\t"@.len() == 9,
                "archname\t"@[0] == 'a',
                "inc\t"@.len() == 4,
                "inc\t"@[0] == 'i',
                done + text::lines(rest@) == text::lines(output@),
                archname.deep_view() == reported(done).archname,
                inc.deep_view() == reported(done).inc,
            decreases rest@.len(),
        {
            let (line, tail) = text::split_line(rest);
            let ghost before = inc.deep_view();
            proof {
                let now = done.push(line@);
                assert(now + text::lines(tail@) == done + text::lines(rest@));
                assert(now.drop_last() == done);
                assert(now.last() == line@);
                done = now;
                if text::starts_with(line@, "archname\t"@) {
                    assert(line@.subrange(0, 9)[0] == 'a');
                }
                if text::starts_with(line@, "inc\t"@) {
                    assert(line@.subrange(0, 4)[0] == 'i');
                }
            }
            rest = tail;
            if text::found_at(line, "archname\t", 0) {
                let value = text::trimmed_start(slice_subrange(line, 9, line.len()));
                let value = text::trimmed_end(value, text::CharClass::Space);
                assert(value@ == text::trim(line@.skip(9)));
                if value.len() > 0 {
                    archname = Some(text::string_of(value));
                }
            } else if text::found_at(line, "inc\t", 0) {
                let value = slice_subrange(line, 4, line.len());
                assert(value@ == line@.skip(4));
                let entry = text::string_of(value);
                if is_directory_entry(entry.as_str()) {
                    inc.push(FilePath::new(entry.as_str()));
                    assert(inc.deep_view() == before.push(vstd::utf8::encode_utf8(value@)));
                }
            }
        }
        assert(done == text::lines(output@));
        proof {
            law_search_directories_are_paths(done);
        }
        InterpreterConfig { archname, inc }
    }
}

/// Whether an `@INC` entry names a filesystem path rather than a `use lib` hook (a
/// coderef or blessed object, which stringifies with a `(0x...)` address).
pub fn is_directory_entry(entry: &str) -> (b: bool)
    ensures
        b == is_path_entry(entry@),
{
    let chars = text::chars_of(entry);
    chars.len() > 0 && !text::found_in(chars.as_slice(), "(0x")
}

/// What the query script prints for the search directories `dirs`.
pub open spec fn printed_dirs(dirs: Seq<Seq<char>>) -> Seq<char>
    decreases dirs.len(),
{
    if dirs.len() == 0 {
        Seq::empty()
    } else {
        "inc\t"@ + dirs[0] + seq!['\n'] + printed_dirs(dirs.drop_first())
    }
}

/// What the query script prints for an interpreter.
pub open spec fn printed(archname: Seq<char>, dirs: Seq<Seq<char>>) -> Seq<char> {
    "archname\t"@ + archname + seq!['\n'] + printed_dirs(dirs)
}

/// Whether `dir` can be told from the line it is printed on: it is a path entry, and
/// what ends a line is no part of it.
pub open spec fn is_printable_dir(dir: Seq<char>) -> bool {
    is_path_entry(dir) && !dir.contains('\n') && dir.last() != '\r'
}

spec fn inc_lines(dirs: Seq<Seq<char>>) -> Seq<Seq<char>> {
    Seq::new(dirs.len(), |i: int| "inc\t"@ + dirs[i])
}

proof fn lemma_printed_lines(dirs: Seq<Seq<char>>)
    requires
        forall|i: int| 0 <= i < dirs.len() ==> is_printable_dir(#[trigger] dirs[i]),
    ensures
        text::lines(printed_dirs(dirs)) == inc_lines(dirs),
    decreases dirs.len(),
{
    reveal_strlit("inc\t");
    if dirs.len() > 0 {
        let rest = dirs.drop_first();
        let line = "inc\t"@ + dirs[0];
        assert(is_printable_dir(dirs[0]));
        assert(!line.contains('\n')) by {
            if line.contains('\n') {
                let i = choose|i: int| 0 <= i < line.len() && line[i] == '\n';
                if i >= 4 {
                    assert(dirs[0][i - 4] == '\n');
                }
            }
        }
        assert(line.last() == dirs[0].last());
        assert forall|i: int| 0 <= i < rest.len() implies is_printable_dir(#[trigger] rest[i]) by {
            assert(rest[i] == dirs[i + 1]);
        }
        lemma_printed_lines(rest);
        text::lemma_lines_first(line, printed_dirs(rest));
        assert(inc_lines(dirs) == seq![line] + inc_lines(rest));
    }
}

proof fn lemma_reported_dirs(first: Seq<char>, dirs: Seq<Seq<char>>)
    requires
        archname_line(first) is Some,
        inc_line(first) is None,
        forall|i: int| 0 <= i < dirs.len() ==> is_path_entry(#[trigger] dirs[i]),
    ensures
        reported(seq![first] + inc_lines(dirs)) == (ConfigView {
            archname: archname_line(first),
            inc: dirs.map_values(|dir: Seq<char>| vstd::utf8::encode_utf8(dir)),
        }),
    decreases dirs.len(),
{
    reveal_strlit("inc\t");
    reveal_strlit("archname\t");
    let all = seq![first] + inc_lines(dirs);
    let f = |dir: Seq<char>| vstd::utf8::encode_utf8(dir);
    if dirs.len() == 0 {
        assert(all.drop_last() == Seq::<Seq<char>>::empty());
        assert(all.last() == first);
        assert(reported(all.drop_last()) == unknown_config());
        assert(reported(all).inc == dirs.map_values(f));
    } else {
        let before = dirs.drop_last();
        assert forall|i: int| 0 <= i < before.len() implies is_path_entry(#[trigger] before[i]) by {
            assert(before[i] == dirs[i]);
        }
        lemma_reported_dirs(first, before);
        let line = "inc\t"@ + dirs.last();
        assert(all.last() == line);
        assert(all.drop_last() == seq![first] + inc_lines(before));
        assert(line.subrange(0, 4) == "inc\t"@);
        assert(line.skip(4) == dirs.last());
        assert(is_path_entry(dirs[dirs.len() - 1]));
        if text::starts_with(line, "archname\t"@) {
            assert(line.subrange(0, 9)[0] == line[0]);
        }
        assert(dirs.map_values(f) == before.map_values(f).push(f(dirs.last())));
    }
}

/// What the query script prints of an interpreter is read back as the architecture name
/// and the search directories that it printed.
pub proof fn law_report_is_read_back(archname: Seq<char>, dirs: Seq<Seq<char>>)
    requires
        archname.len() > 0,
        text::trim(archname) == archname,
        !archname.contains('\n'),
        forall|i: int| 0 <= i < dirs.len() ==> is_printable_dir(#[trigger] dirs[i]),
    ensures
        reported(text::lines(printed(archname, dirs))) == (ConfigView {
            archname: Some(archname),
            inc: dirs.map_values(|dir: Seq<char>| vstd::utf8::encode_utf8(dir)),
        }),
{
    reveal_strlit("archname\t");
    reveal_strlit("inc\t");
    let first = "archname\t"@ + archname;
    assert(!first.contains('\n')) by {
        if first.contains('\n') {
            let i = choose|i: int| 0 <= i < first.len() && first[i] == '\n';
            if i >= 9 {
                assert(archname[i - 9] == '\n');
            }
        }
    }
    text::lemma_trimmed_ends(archname);
    assert(first.last() == archname.last());
    assert(text::without_return(first) == first);
    text::lemma_lines_first(first, printed_dirs(dirs));
    lemma_printed_lines(dirs);
    assert(first.subrange(0, 9) == "archname\t"@);
    assert(first.skip(9) == archname);
    if text::starts_with(first, "inc\t"@) {
        assert(first.subrange(0, 4)[0] == first[0]);
    }
    assert forall|i: int| 0 <= i < dirs.len() implies is_path_entry(#[trigger] dirs[i]) by {
        assert(is_printable_dir(dirs[i]));
    }
    lemma_reported_dirs(first, dirs);
}

/// Every search directory that is read from a report names a filesystem path.
pub proof fn law_search_directories_are_paths(lines: Seq<Seq<char>>)
    ensures
        are_inc_paths(reported(lines).inc),
    decreases lines.len(),
{
    if lines.len() > 0 {
        let before = reported(lines.drop_last()).inc;
        law_search_directories_are_paths(lines.drop_last());
        assert forall|i: int| 0 <= i < reported(lines).inc.len() implies is_inc_path(
            #[trigger] reported(lines).inc[i],
        ) by {
            if i < before.len() {
                assert(reported(lines).inc[i] == before[i]);
            } else {
                let dir = inc_line(lines.last())->0;
                assert(is_path_entry(dir));
                assert(reported(lines).inc[i] == vstd::utf8::encode_utf8(dir));
            }
        }
    }
}

/// An entry names a filesystem path exactly if it is not empty and `(0x` stands nowhere in
/// it.
pub proof fn law_path_entries(entry: Seq<char>)
    ensures
        is_path_entry(entry) <==> entry.len() > 0 && !(exists|i: int|
            0 <= i && i + 2 < entry.len() && #[trigger] entry[i] == '(' && entry[i + 1] == '0'
                && entry[i + 2] == 'x'),
{
    reveal_strlit("(0x");
    let mark = "(0x"@;
    text::law_occurrence(entry, mark, 0);
    if text::contains(entry, mark) {
        let i = choose|i: int| #[trigger] crate::alphabet::stands_at(entry, mark, i);
        assert(entry[i + 0] == mark[0] && entry[i + 1] == mark[1] && entry[i + 2] == mark[2]);
    }
    if exists|i: int|
        0 <= i && i + 2 < entry.len() && #[trigger] entry[i] == '(' && entry[i + 1] == '0'
            && entry[i + 2] == 'x' {
        let i = choose|i: int|
            0 <= i && i + 2 < entry.len() && #[trigger] entry[i] == '(' && entry[i + 1] == '0'
                && entry[i + 2] == 'x';
        assert forall|k: int| 0 <= k < mark.len() implies entry[i + k] == #[trigger] mark[k] by {
            assert(k == 0 || k == 1 || k == 2);
        }
        assert(crate::alphabet::stands_at(entry, mark, i));
    }
}

/// A line of a report gives the architecture name or the search directory that stands
/// behind its first tab, and any other line gives nothing.
pub proof fn law_report_lines(value: Seq<char>, line: Seq<char>)
    ensures
        ({
            let named = "archname\t"@ + value;
            &&& inc_line(named) is None
            &&& text::trim(value).len() > 0 ==> archname_line(named) == Some(text::trim(value))
            &&& text::trim(value).len() == 0 ==> archname_line(named) is None
        }),
        ({
            let dir = "inc\t"@ + value;
            &&& archname_line(dir) is None
            &&& is_path_entry(value) ==> inc_line(dir) == Some(value)
            &&& !is_path_entry(value) ==> inc_line(dir) is None
        }),
        !crate::alphabet::stands_at(line, "archname\t"@, 0) ==> archname_line(line) is None,
        !crate::alphabet::stands_at(line, "inc\t"@, 0) ==> inc_line(line) is None,
{
    reveal_strlit("archname\t");
    reveal_strlit("inc\t");
    let named = "archname\t"@ + value;
    let dir = "inc\t"@ + value;
    assert(named.subrange(0, 9) == "archname\t"@);
    assert(named.skip(9) == value);
    assert(dir.subrange(0, 4) == "inc\t"@);
    assert(dir.skip(4) == value);
    if text::starts_with(named, "inc\t"@) {
        assert(named.subrange(0, 4)[0] == named[0]);
    }
    if text::starts_with(dir, "archname\t"@) {
        assert(dir.subrange(0, 9)[0] == dir[0]);
    }
    text::law_occurrence(line, "archname\t"@, 0);
    text::law_occurrence(line, "inc\t"@, 0);
}

/// What a report says, its parts say: every search directory in order, and the last
/// architecture name.
pub proof fn law_reports_add_up(a: Seq<Seq<char>>, b: Seq<Seq<char>>, line: Seq<char>)
    ensures
        reported(Seq::<Seq<char>>::empty()).archname is None,
        reported(Seq::<Seq<char>>::empty()).inc.len() == 0,
        reported(seq![line]).archname == archname_line(line),
        inc_line(line) is None ==> reported(seq![line]).inc.len() == 0,
        inc_line(line) matches Some(dir) ==> reported(seq![line]).inc == seq![
            vstd::utf8::encode_utf8(dir),
        ],
        reported(a + b).inc == reported(a).inc + reported(b).inc,
        reported(a + b).archname == (if reported(b).archname is Some {
            reported(b).archname
        } else {
            reported(a).archname
        }),
    decreases b.len(),
{
    assert(seq![line].drop_last() == Seq::<Seq<char>>::empty());
    assert(reported(seq![line].drop_last()) == unknown_config());
    assert(seq![line].last() == line);
    if b.len() == 0 {
        assert(a + b == a);
        assert(reported(b) == unknown_config());
        assert(reported(a).inc + reported(b).inc == reported(a).inc);
    } else {
        let before = b.drop_last();
        law_reports_add_up(a, before, line);
        assert((a + b).drop_last() == a + before);
        assert((a + b).last() == b.last());
        assert(reported(a + b).inc == reported(a).inc + reported(b).inc);
    }
}

/// Where nothing is known, there is neither an architecture name nor a search directory.
pub proof fn law_nothing_is_known()
    ensures
        unknown_config().archname is None,
        unknown_config().inc.len() == 0,
{
}

} // verus!
