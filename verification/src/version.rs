//! Reading the version of a Perl module out of its source text, without running it.

use crate::alphabet;
use crate::outside;
use crate::text;
use crate::text::CharClass;
use vstd::prelude::*;
use vstd::slice::slice_subrange;

verus! {

/// Whether `value` can be a version: it has a digit, and no character that would
/// make it refer to a variable or a format.
pub open spec fn looks_like_version(value: Seq<char>) -> bool {
    &&& exists|i: int| 0 <= i < value.len() && text::is_digit(#[trigger] value[i])
    &&& forall|i: int| 0 <= i < value.len() ==> !is_reference(#[trigger] value[i])
}

/// A character that starts a variable or a format.
pub open spec fn is_reference(c: char) -> bool {
    c == '%' || c == '$' || c == '@'
}

/// The version that the literal `value` stands for: its text without surrounding
/// white space and without `.` and `_` at its end, if that looks like a version.
pub open spec fn cleaned(value: Seq<char>) -> Option<Seq<char>> {
    let v = text::trim_end(text::trim(value), CharClass::Separator);
    if looks_like_version(v) {
        Some(v)
    } else {
        None
    }
}

/// Normalises a version literal, or rejects it if it does not look like a version
/// (no digits, or a reference to a variable or a format).
pub fn clean_version_string(value: &[char]) -> (version: Option<String>)
    ensures
        version.deep_view() == cleaned(value@),
{
    let trimmed = text::trimmed_end(text::trimmed_start(value), CharClass::Space);
    let cut = text::trimmed_end(trimmed, CharClass::Separator);
    let mut digits = false;
    let mut i: usize = 0;
    while i < cut.len()
        invariant
            i <= cut@.len(),
            cut@ == text::trim_end(text::trim(value@), CharClass::Separator),
            digits == exists|j: int| 0 <= j < i && text::is_digit(#[trigger] cut@[j]),
            forall|j: int| 0 <= j < i ==> !is_reference(#[trigger] cut@[j]),
        decreases cut@.len() - i,
    {
        let c = cut[i];
        if c == '%' || c == '$' || c == '@' {
            assert(is_reference(cut@[i as int]));
            return None;
        }
        if text::digit(c) {
            assert(text::is_digit(cut@[i as int]));
            digits = true;
        }
        i += 1;
    }
    if digits {
        Some(text::string_of(cut))
    } else {
        None
    }
}

/// The length of the `[vV]?[0-9._]*` run that `s` starts with.
pub open spec fn number_len(s: Seq<char>) -> int {
    let v: int = if s.len() > 0 && (s[0] == 'v' || s[0] == 'V') {
        1
    } else {
        0
    };
    v + text::leading(s.skip(v), CharClass::Number)
}

/// Counts the characters of the `[vV]?[0-9._]*` run that `s` starts with.
pub fn take_number(s: &[char]) -> (n: usize)
    ensures
        n == number_len(s@),
        n <= s@.len(),
{
    let v: usize = if s.len() > 0 && (s[0] == 'v' || s[0] == 'V') {
        1
    } else {
        0
    };
    let rest = slice_subrange(s, v, s.len());
    assert(rest@ == s@.skip(v as int));
    v + text::count_leading(rest, CharClass::Number)
}

/// Whether a `package` statement ends where `s` starts, but for white space: a `;`, a
/// `{`, or the end of the line comes next.
pub open spec fn ends_statement(s: Seq<char>) -> bool {
    let tail = text::trim_start(s);
    tail.len() == 0 || tail[0] == ';' || tail[0] == '{'
}

/// The version that `s` starts with, if nothing but white space stands between it
/// and the end of the statement.
pub open spec fn numeric_version(s: Seq<char>) -> Option<Seq<char>> {
    let n = number_len(s);
    if ends_statement(s.skip(n)) {
        cleaned(s.take(n))
    } else {
        None
    }
}

/// Reads the version literal (`1.23`, `v1.2.3`) of a `package` statement, which has
/// to be followed by the end of the statement.
pub fn take_numeric_version(s: &[char]) -> (version: Option<String>)
    ensures
        version.deep_view() == numeric_version(s@),
{
    let n = take_number(s);
    let rest = slice_subrange(s, n, s.len());
    assert(rest@ == s@.skip(n as int));
    let tail = text::trimmed_start(rest);
    if tail.len() == 0 || tail[0] == ';' || tail[0] == '{' {
        let literal = slice_subrange(s, 0, n);
        assert(literal@ == s@.take(n as int));
        clean_version_string(literal)
    } else {
        None
    }
}

/// One of the two quote characters.
pub open spec fn is_quote(c: char) -> bool {
    c == '\'' || c == '"'
}

/// How many brackets are open behind `c`, when `depth` are before it. A closing bracket
/// that closes nothing does not count.
pub open spec fn depth_after(depth: nat, c: char) -> nat {
    if c == '(' || c == '[' || c == '{' {
        depth + 1
    } else if (c == ')' || c == ']' || c == '}') && depth > 0 {
        (depth - 1) as nat
    } else {
        depth
    }
}

/// The position of the first quote at `i` or later in the statement that `s` starts with,
/// when `depth` brackets are open before `i`. A `;` ends the statement, unless it stands
/// between brackets.
pub open spec fn quote_at(s: Seq<char>, i: int, depth: nat) -> Option<int>
    decreases s.len() - i,
{
    if i >= s.len() {
        None
    } else if is_quote(s[i]) {
        Some(i)
    } else if s[i] == ';' && depth == 0 {
        None
    } else {
        quote_at(s, i + 1, depth_after(depth, s[i]))
    }
}

/// Finds the first quote in the statement that `s` starts with.
fn find_quote(s: &[char]) -> (at: Option<usize>)
    ensures
        at is None <==> quote_at(s@, 0, 0) is None,
        at matches Some(i) ==> i < s@.len() && quote_at(s@, 0, 0) == Some(i as int),
{
    let mut depth: usize = 0;
    let mut i: usize = 0;
    while i < s.len()
        invariant
            depth <= i <= s@.len(),
            quote_at(s@, 0, 0) == quote_at(s@, i as int, depth as nat),
        decreases s@.len() - i,
    {
        let c = s[i];
        if c == '\'' || c == '"' {
            return Some(i);
        }
        if c == ';' && depth == 0 {
            return None;
        }
        if c == '(' || c == '[' || c == '{' {
            depth += 1;
        } else if (c == ')' || c == ']' || c == '}') && depth > 0 {
            depth -= 1;
        }
        i += 1;
    }
    None
}

/// The first quoted string in the statement that `s` starts with, without its quotes.
pub open spec fn quoted(s: Seq<char>) -> Option<Seq<char>> {
    match quote_at(s, 0, 0) {
        Some(open) => {
            let inner = s.skip(open + 1);
            let close = text::leading(inner, CharClass::Except(s[open])) as int;
            if close < inner.len() {
                Some(inner.take(close))
            } else {
                None
            }
        },
        None => None,
    }
}

/// Whether `s` starts with a bare version literal: a digit, or `v` and a digit.
pub open spec fn starts_with_number(s: Seq<char>) -> bool {
    ||| s.len() > 0 && text::is_digit(s[0])
    ||| s.len() > 1 && (s[0] == 'v' || s[0] == 'V') && text::is_digit(s[1])
}

/// The version that stands on the right-hand side of an assignment: a bare literal,
/// or else the first quoted string before the end of the statement, be it the value
/// itself or the argument of a call.
pub open spec fn assigned_value(rhs: Seq<char>) -> Option<Seq<char>> {
    let value = text::trim_start(rhs);
    if starts_with_number(value) {
        cleaned(value.take(number_len(value)))
    } else {
        match quoted(value) {
            Some(literal) => cleaned(literal),
            None => None,
        }
    }
}

/// Reads a version from the right-hand side of an assignment: a quoted string, a
/// bare numeric or `v`-string literal, or the first quoted string inside a call such
/// as `qv('1.2.3')` or `version->declare('v1.2.3')`. What follows the `;` that ends the
/// statement is not looked at; a `;` between brackets does not end it.
pub fn extract_version_value(rhs: &[char]) -> (version: Option<String>)
    ensures
        version.deep_view() == assigned_value(rhs@),
{
    let value = text::trimmed_start(rhs);
    let number = (value.len() > 0 && text::digit(value[0])) || (value.len() > 1 && (value[0] == 'v'
        || value[0] == 'V') && text::digit(value[1]));
    if number {
        let n = take_number(value);
        let literal = slice_subrange(value, 0, n);
        assert(literal@ == value@.take(n as int));
        return clean_version_string(literal);
    }
    let open = match find_quote(value) {
        Some(open) => open,
        None => {
            return None;
        },
    };
    let inner = slice_subrange(value, open + 1, value.len());
    assert(inner@ == value@.skip(open + 1));
    let close = text::count_leading(inner, CharClass::Except(value[open]));
    if close == inner.len() {
        return None;
    }
    let literal = slice_subrange(inner, 0, close);
    assert(literal@ == inner@.take(close as int));
    clean_version_string(literal)
}

/// Whether a plain assignment stands in `s` at position `i`: a `=` that is no part of
/// `==`, `=~`, `=>`, `<=`, `>=` or `!=`. The `=` of `<<=` and `>>=` does assign.
pub open spec fn is_assignment(s: Seq<char>, i: int) -> bool {
    &&& 0 <= i < s.len()
    &&& s[i] == '='
    &&& !(i + 1 < s.len() && (s[i + 1] == '=' || s[i + 1] == '~' || s[i + 1] == '>'))
    &&& !(i > 0 && (s[i - 1] == '!' || s[i - 1] == '='))
    &&& !(i > 0 && (s[i - 1] == '<' || s[i - 1] == '>') && !(i > 1 && s[i - 2] == s[i - 1]))
}

/// The position of the first plain assignment in `s` that stands at `i` or later, if it
/// comes before any `;` or `#`.
pub open spec fn assignment_from(s: Seq<char>, i: int) -> Option<int>
    decreases s.len() - i,
{
    if i >= s.len() || s[i] == ';' || s[i] == '#' {
        None
    } else if is_assignment(s, i) {
        Some(i)
    } else {
        assignment_from(s, i + 1)
    }
}

/// Finds the first `=` in `s` that is a plain assignment (not part of `==`, `=~`, `=>`,
/// `<=`, `>=` or `!=`; that of an operator such as `||=` or `<<=` is one). Gives `None` if
/// a `;` or `#` is reached first.
pub fn find_assignment(s: &[char]) -> (at: Option<usize>)
    ensures
        at is None <==> assignment_from(s@, 0) is None,
        at matches Some(i) ==> i < s@.len() && assignment_from(s@, 0) == Some(i as int),
{
    let mut i: usize = 0;
    while i < s.len()
        invariant
            i <= s@.len(),
            assignment_from(s@, 0) == assignment_from(s@, i as int),
        decreases s@.len() - i,
    {
        let c = s[i];
        if c == ';' || c == '#' {
            return None;
        }
        if c == '=' {
            let operator = i + 1 < s.len() && (s[i + 1] == '=' || s[i + 1] == '~' || s[i + 1]
                == '>');
            let comparison = i > 0 && (s[i - 1] == '!' || s[i - 1] == '=' || ((s[i - 1] == '<'
                || s[i - 1] == '>') && !(i > 1 && s[i - 2] == s[i - 1])));
            if !operator && !comparison {
                return Some(i);
            }
        }
        i += 1;
    }
    None
}

/// Whether a name can stand behind `qualifier`: it is empty, or ends in the `::` or `'`
/// that sets a package off from a name in it.
pub open spec fn is_qualifier(qualifier: Seq<char>) -> bool {
    let n = qualifier.len() as int;
    ||| n == 0
    ||| qualifier[n - 1] == '\''
    ||| n >= 2 && qualifier[n - 1] == ':' && qualifier[n - 2] == ':'
}

/// Whether `prefix` ends in a `$` or `*` sigil and an optional package qualifier.
pub open spec fn ends_in_sigil(prefix: Seq<char>) -> bool {
    let rest = text::trim_end(prefix, CharClass::Qualified);
    &&& rest.len() > 0
    &&& rest.last() == '$' || rest.last() == '*'
    &&& is_qualifier(prefix.skip(rest.len() as int))
}

/// Tells whether `prefix` ends in a `$` or `*` sigil and an optional `Pkg::` qualifier.
fn is_sigilled(prefix: &[char]) -> (b: bool)
    ensures
        b == ends_in_sigil(prefix@),
{
    let rest = text::trimmed_end(prefix, CharClass::Qualified);
    let n = prefix.len();
    let k = rest.len();
    if k == 0 || !(rest[k - 1] == '$' || rest[k - 1] == '*') {
        return false;
    }
    proof {
        text::lemma_trailing(prefix@, CharClass::Qualified);
    }
    let ghost qualifier = prefix@.skip(k as int);
    assert(qualifier.len() == n - k);
    assert(n > k ==> qualifier[n - k - 1] == prefix@[n - 1]);
    assert(n > k + 1 ==> qualifier[n - k - 2] == prefix@[n - 2]);
    k == n || prefix[n - 1] == '\'' || (n - k >= 2 && prefix[n - 1] == ':' && prefix[n - 2] == ':')
}

/// Whether a variable named `VERSION` stands in `line`, with its name at position `p`.
pub open spec fn version_variable_at(line: Seq<char>, p: int) -> bool {
    &&& text::occurs_at(line, "VERSION"@, p)
    &&& !(p + 7 < line.len() && text::is_word(line[p + 7]))
    &&& ends_in_sigil(line.take(p))
}

/// The version that is assigned in `line` to the variable `VERSION` whose name stands
/// at position `p`.
pub open spec fn version_at(line: Seq<char>, p: int) -> Option<Seq<char>> {
    if version_variable_at(line, p) {
        match assignment_from(line.skip(p + 7), 0) {
            Some(eq) => assigned_value(line.skip(p + 7 + eq + 1)),
            None => None,
        }
    } else {
        None
    }
}

/// The first version that is assigned in `line` to a variable `VERSION` whose name
/// stands at position `p` or later.
pub open spec fn assigned_from(line: Seq<char>, p: int) -> Option<Seq<char>>
    decreases line.len() - p,
{
    if p >= line.len() {
        None
    } else {
        match version_at(line, p) {
            Some(version) => Some(version),
            None => assigned_from(line, p + 1),
        }
    }
}

/// Reads the version from a `$VERSION = ...;` (or `*VERSION = ...;`) assignment.
pub fn parse_version_assignment(line: &[char]) -> (version: Option<String>)
    ensures
        version.deep_view() == assigned_from(line@, 0),
{
    proof {
        reveal_strlit("VERSION");
    }
    let mut p: usize = 0;
    while p < line.len()
        invariant
            p <= line@.len(),
            "VERSION"@.len() == 7,
            assigned_from(line@, 0) == assigned_from(line@, p as int),
        decreases line@.len() - p,
    {
        if text::found_at(line, "VERSION", p) {
            let after = p + 7;
            // `VERSION` must be a complete word.
            let whole = !(after < line.len() && text::word(line[after]));
            // To its left: an optional `Pkg::` qualifier, then a `$` or `*` sigil.
            let prefix = slice_subrange(line, 0, p);
            assert(prefix@ == line@.take(p as int));
            if whole && is_sigilled(prefix) {
                let tail = slice_subrange(line, after, line.len());
                assert(tail@ == line@.skip(p + 7));
                if let Some(eq) = find_assignment(tail) {
                    let rhs = slice_subrange(tail, eq + 1, tail.len());
                    assert(rhs@ == line@.skip(p + 7 + eq + 1));
                    let version = extract_version_value(rhs);
                    if version.is_some() {
                        return version;
                    }
                }
            }
        }
        p += 1;
    }
    None
}

/// The version that `line` declares if it is a `package NAME VERSION` statement.
pub open spec fn package_version(line: Seq<char>) -> Option<Seq<char>> {
    let rest = line.skip(7);
    let name = text::trim_start(rest);
    let n = text::leading(name, CharClass::Qualified) as int;
    if text::starts_with(line, "package"@) && rest.len() > 0 && CharClass::Space.has(rest[0]) && n
        > 0 {
        numeric_version(text::trim_start(name.skip(n)))
    } else {
        None
    }
}

/// Reads the version from a `package NAME VERSION ...` statement, if `line` is one
/// that carries a version.
pub fn parse_package_statement_version(line: &[char]) -> (version: Option<String>)
    ensures
        version.deep_view() == package_version(line@),
{
    proof {
        reveal_strlit("package");
    }
    if !text::found_at(line, "package", 0) {
        return None;
    }
    let rest = slice_subrange(line, 7, line.len());
    assert(rest@ == line@.skip(7));
    if rest.len() == 0 || !CharClass::Space.contains(rest[0]) {
        return None;
    }
    let name = text::trimmed_start(rest);
    let n = text::count_leading(name, CharClass::Qualified);
    if n == 0 {
        return None;
    }
    let tail = slice_subrange(name, n, name.len());
    assert(tail@ == name@.skip(n as int));
    take_numeric_version(text::trimmed_start(tail))
}

/// The version that a line of code declares.
pub open spec fn line_version(line: Seq<char>) -> Option<Seq<char>> {
    match package_version(text::trim_start(line)) {
        Some(version) => Some(version),
        None => assigned_from(line, 0),
    }
}

/// Whether `line` opens a block of POD: a `=` and a letter at its very start.
pub open spec fn opens_pod(line: Seq<char>) -> bool {
    line.len() > 1 && line[0] == '=' && text::is_letter(line[1])
}

/// Whether `line` closes a block of POD.
pub open spec fn closes_pod(line: Seq<char>) -> bool {
    text::starts_with(line, "=cut"@)
}

/// Whether `line` ends the program text.
pub open spec fn ends_program(line: Seq<char>) -> bool {
    let end = text::trim_end(line, CharClass::Space);
    end == "__END__"@ || end == "__DATA__"@
}

/// Whether `line` is a comment.
pub open spec fn is_comment(line: Seq<char>) -> bool {
    let code = text::trim_start(line);
    code.len() > 0 && code[0] == '#'
}

/// The first version that a line of code among `lines` declares; `in_pod` tells
/// whether they start inside a block of POD. Lines of POD and comments are no code,
/// nor is anything from the line on that ends the program text.
pub open spec fn first_version(lines: Seq<Seq<char>>, in_pod: bool) -> Option<Seq<char>>
    decreases lines.len(),
{
    if lines.len() == 0 {
        None
    } else {
        let line = lines[0];
        let rest = lines.drop_first();
        if in_pod {
            first_version(rest, !closes_pod(line))
        } else if opens_pod(line) {
            first_version(rest, true)
        } else if ends_program(line) {
            None
        } else if is_comment(line) || line_version(line) is None {
            first_version(rest, false)
        } else {
            line_version(line)
        }
    }
}

/// The version that the source text of a module declares.
pub open spec fn declared_version(source: Seq<char>) -> Option<Seq<char>> {
    first_version(text::lines(source), false)
}

/// Recovers a module's version from its source text without executing it.
///
/// Lines inside POD and anything after `__END__` / `__DATA__` are ignored. The
/// first `package NAME VERSION` statement or `$VERSION` (or `*VERSION`) assignment
/// wins; the right-hand side is read as a literal rather than evaluated.
pub fn parse_version(source: &str) -> (version: Option<String>)
    ensures
        version.deep_view() == declared_version(source@),
{
    let chars = text::chars_of(source);
    let mut rest: &[char] = chars.as_slice();
    let mut in_pod = false;
    while rest.len() > 0
        invariant
            declared_version(source@) == first_version(text::lines(rest@), in_pod),
        decreases rest@.len(),
    {
        let ghost before = rest@;
        let (line, tail) = text::split_line(rest);
        rest = tail;
        assert(text::lines(before)[0] == line@);
        assert(text::lines(before).drop_first() == text::lines(tail@));
        if in_pod {
            in_pod = !text::found_at(line, "=cut", 0);
        } else if line.len() > 1 && line[0] == '=' && text::letter(line[1]) {
            in_pod = true;
        } else {
            let end = text::trimmed_end(line, CharClass::Space);
            if text::is_text(end, "__END__") || text::is_text(end, "__DATA__") {
                return None;
            }
            let code = text::trimmed_start(line);
            if !(code.len() > 0 && code[0] == '#') {
                let version = parse_package_statement_version(code);
                if version.is_some() {
                    return version;
                }
                let version = parse_version_assignment(line);
                if version.is_some() {
                    return version;
                }
            }
        }
    }
    None
}

/// Whether reading is inside a block of POD after a line, when `in_pod` tells whether it
/// was before.
pub open spec fn pod_after(in_pod: bool, line: Seq<char>) -> bool {
    if in_pod {
        !closes_pod(line)
    } else {
        opens_pod(line)
    }
}

/// Whether reading is inside a block of POD before line `i`, when `in_pod` tells whether
/// it is at the start.
pub open spec fn pod_before(lines: Seq<Seq<char>>, in_pod: bool, i: int) -> bool
    decreases i,
{
    if i <= 0 {
        in_pod
    } else {
        pod_after(pod_before(lines, in_pod, i - 1), lines[i - 1])
    }
}

/// Whether line `i` ends the program text.
pub open spec fn ends_program_at(lines: Seq<Seq<char>>, in_pod: bool, i: int) -> bool {
    !pod_before(lines, in_pod, i) && ends_program(lines[i])
}

/// Whether line `i` is code: it is outside POD, opens none, is no comment, and the
/// program text does not end at or before it.
pub open spec fn is_code_line(lines: Seq<Seq<char>>, in_pod: bool, i: int) -> bool {
    &&& 0 <= i < lines.len()
    &&& !pod_before(lines, in_pod, i)
    &&& !opens_pod(lines[i])
    &&& !is_comment(lines[i])
    &&& forall|j: int| 0 <= j <= i ==> !#[trigger] ends_program_at(lines, in_pod, j)
}

/// Whether line `i` is the first line of code that declares a version.
pub open spec fn is_first_declaration(lines: Seq<Seq<char>>, in_pod: bool, i: int) -> bool {
    &&& is_code_line(lines, in_pod, i)
    &&& line_version(lines[i]) is Some
    &&& forall|j: int|
        0 <= j < i && #[trigger] is_code_line(lines, in_pod, j) ==> line_version(lines[j]) is None
}

proof fn lemma_pod_before_rest(lines: Seq<Seq<char>>, in_pod: bool, i: int)
    requires
        0 <= i < lines.len(),
    ensures
        pod_before(lines, in_pod, i + 1) == pod_before(
            lines.drop_first(),
            pod_after(in_pod, lines[0]),
            i,
        ),
    decreases i,
{
    if i > 0 {
        lemma_pod_before_rest(lines, in_pod, i - 1);
        assert(lines.drop_first()[i - 1] == lines[i]);
    } else {
        reveal_with_fuel(pod_before, 3);
    }
}

proof fn lemma_end_is_no_pod(line: Seq<char>)
    requires
        ends_program(line),
    ensures
        !opens_pod(line),
{
    reveal_strlit("__END__");
    reveal_strlit("__DATA__");
    text::lemma_trailing(line, CharClass::Space);
    let end = text::trim_end(line, CharClass::Space);
    assert("__END__"@.len() == 7 && "__DATA__"@.len() == 8);
    assert(end[0] == line[0]);
}

proof fn lemma_first_version(lines: Seq<Seq<char>>, in_pod: bool)
    ensures
        match first_version(lines, in_pod) {
            Some(version) => exists|i: int|
                #[trigger] is_first_declaration(lines, in_pod, i) && line_version(lines[i]) == Some(
                    version,
                ),
            None => forall|i: int| #[trigger]
                is_code_line(lines, in_pod, i) ==> line_version(lines[i]) is None,
        },
    decreases lines.len(),
{
    if lines.len() > 0 {
        let line = lines[0];
        let rest = lines.drop_first();
        let next = pod_after(in_pod, line);
        assert(pod_before(lines, in_pod, 0) == in_pod);
        if !in_pod && ends_program(line) {
            lemma_end_is_no_pod(line);
            assert(ends_program_at(lines, in_pod, 0));
        } else if !in_pod && !opens_pod(line) && !is_comment(line) && line_version(line) is Some {
            assert forall|j: int| 0 <= j <= 0 implies !#[trigger] ends_program_at(
                lines,
                in_pod,
                j,
            ) by {}
            assert(is_first_declaration(lines, in_pod, 0));
        } else {
            lemma_first_version(rest, next);
            assert(!ends_program_at(lines, in_pod, 0));
            assert forall|i: int| 0 <= i < rest.len() implies #[trigger] is_code_line(
                rest,
                next,
                i,
            ) == is_code_line(lines, in_pod, i + 1) by {
                lemma_code_line_of_rest(lines, in_pod, i);
            }
            assert(!is_code_line(lines, in_pod, 0) || line_version(line) is None);
            match first_version(rest, next) {
                Some(version) => {
                    let i = choose|i: int|
                        #[trigger] is_first_declaration(rest, next, i) && line_version(rest[i])
                            == Some(version);
                    assert(rest[i] == lines[i + 1]);
                    assert forall|j: int|
                        0 <= j < i + 1 && #[trigger] is_code_line(lines, in_pod, j) implies line_version(
                        lines[j],
                    ) is None by {
                        if j > 0 {
                            assert(is_code_line(rest, next, j - 1));
                            assert(rest[j - 1] == lines[j]);
                        }
                    }
                    assert(is_code_line(rest, next, i));
                    assert(is_first_declaration(lines, in_pod, i + 1));
                },
                None => {
                    assert forall|j: int| #[trigger] is_code_line(
                        lines,
                        in_pod,
                        j,
                    ) implies line_version(lines[j]) is None by {
                        if j > 0 {
                            assert(is_code_line(rest, next, j - 1));
                            assert(rest[j - 1] == lines[j]);
                        }
                    }
                },
            }
        }
    }
}

proof fn lemma_code_line_of_rest(lines: Seq<Seq<char>>, in_pod: bool, i: int)
    requires
        lines.len() > 0,
        !ends_program_at(lines, in_pod, 0),
        0 <= i < lines.len() - 1,
    ensures
        is_code_line(lines.drop_first(), pod_after(in_pod, lines[0]), i) == is_code_line(
            lines,
            in_pod,
            i + 1,
        ),
{
    let rest = lines.drop_first();
    let next = pod_after(in_pod, lines[0]);
    lemma_pod_before_rest(lines, in_pod, i);
    assert(rest[i] == lines[i + 1]);
    assert forall|j: int| 0 <= j <= i implies #[trigger] ends_program_at(rest, next, j)
        == ends_program_at(lines, in_pod, j + 1) by {
        lemma_pod_before_rest(lines, in_pod, j);
        assert(rest[j] == lines[j + 1]);
    }
    if is_code_line(rest, next, i) {
        assert forall|j: int| 0 <= j <= i + 1 implies !#[trigger] ends_program_at(
            lines,
            in_pod,
            j,
        ) by {
            if j > 0 {
                assert(!ends_program_at(rest, next, j - 1));
            }
        }
    }
    if is_code_line(lines, in_pod, i + 1) {
        assert forall|j: int| 0 <= j <= i implies !#[trigger] ends_program_at(rest, next, j) by {
            assert(!ends_program_at(lines, in_pod, j + 1));
        }
    }
}

/// The version of a module is the one that the first line of code with a version
/// declares; there is none if no line of code declares one.
pub proof fn law_first_declaration_wins(source: Seq<char>)
    ensures
        ({
            let lines = text::lines(source);
            match declared_version(source) {
                Some(version) => exists|i: int|
                    #[trigger] is_first_declaration(lines, false, i) && line_version(lines[i])
                        == Some(version),
                None => forall|i: int| #[trigger]
                    is_code_line(lines, false, i) ==> line_version(lines[i]) is None,
            }
        }),
{
    lemma_first_version(text::lines(source), false);
}

/// Whether reading `head` ends inside a block of POD.
pub open spec fn ends_in_pod(head: Seq<char>) -> bool {
    pod_before(text::lines(head), false, text::lines(head).len() as int)
}

proof fn lemma_cut_at_end(a: Seq<Seq<char>>, end: Seq<char>, b: Seq<Seq<char>>, in_pod: bool)
    requires
        ends_program(end),
        !pod_before(a, in_pod, a.len() as int),
    ensures
        first_version(a + seq![end] + b, in_pod) == first_version(a, in_pod),
    decreases a.len(),
{
    let all = a + seq![end] + b;
    if a.len() == 0 {
        lemma_end_is_no_pod(end);
        assert(all[0] == end);
    } else {
        let rest = a.drop_first();
        let next = pod_after(in_pod, a[0]);
        assert(all[0] == a[0]);
        assert(all.drop_first() == rest + seq![end] + b);
        lemma_pod_before_rest(a, in_pod, a.len() - 1);
        lemma_cut_at_end(rest, end, b, next);
    }
}

/// Nothing from a line on counts that ends the program text outside POD.
pub proof fn law_text_after_the_end_is_ignored(head: Seq<char>, end: Seq<char>, tail: Seq<char>)
    requires
        head.len() == 0 || head.last() == '\n',
        !ends_in_pod(head),
        !end.contains('\n'),
        ends_program(end),
    ensures
        declared_version(head + end + seq!['\n'] + tail) == declared_version(head),
{
    let a = text::lines(head);
    let rest = end + seq!['\n'] + tail;
    assert(head + end + seq!['\n'] + tail == head + rest);
    text::lemma_lines_concat(head, rest);
    text::lemma_lines_first(end, tail);
    let line = text::without_return(end);
    assert(ends_program(line)) by {
        if end.len() > 0 && end.last() == '\r' {
            assert(outside::is_white_space('\r'));
            text::lemma_trailing(line, CharClass::Space);
            assert(text::trailing(end, CharClass::Space) == 1 + text::trailing(
                line,
                CharClass::Space,
            ));
            assert(text::trim_end(end, CharClass::Space) == text::trim_end(line, CharClass::Space));
        }
    }
    assert(text::lines(head + rest) == a + seq![line] + text::lines(tail));
    lemma_cut_at_end(a, line, text::lines(tail), false);
}

proof fn lemma_skip_pod(block: Seq<Seq<char>>, b: Seq<Seq<char>>)
    requires
        block.len() > 0,
        closes_pod(block.last()),
        forall|i: int| 0 <= i < block.len() - 1 ==> !closes_pod(#[trigger] block[i]),
    ensures
        first_version(block + b, true) == first_version(b, false),
    decreases block.len(),
{
    let all = block + b;
    assert(all[0] == block[0]);
    let rest = block.drop_first();
    assert(all.drop_first() == rest + b);
    if block.len() == 1 {
        assert(rest + b == b);
    } else {
        assert(!closes_pod(block[0]));
        assert forall|i: int| 0 <= i < rest.len() - 1 implies !closes_pod(#[trigger] rest[i]) by {
            assert(rest[i] == block[i + 1]);
        }
        lemma_skip_pod(rest, b);
    }
}

proof fn lemma_same_after(
    a: Seq<Seq<char>>,
    b: Seq<Seq<char>>,
    c: Seq<Seq<char>>,
    in_pod: bool,
)
    requires
        !pod_before(a, in_pod, a.len() as int),
        first_version(b, false) == first_version(c, false),
    ensures
        first_version(a + b, in_pod) == first_version(a + c, in_pod),
    decreases a.len(),
{
    if a.len() == 0 {
        assert(a + b == b);
        assert(a + c == c);
    } else {
        let rest = a.drop_first();
        assert((a + b)[0] == a[0]);
        assert((a + c)[0] == a[0]);
        assert((a + b).drop_first() == rest + b);
        assert((a + c).drop_first() == rest + c);
        lemma_pod_before_rest(a, in_pod, a.len() - 1);
        lemma_same_after(rest, b, c, pod_after(in_pod, a[0]));
    }
}

/// A block of POD, from the line that opens it to the one that closes it, counts for
/// nothing, wherever among the lines of code it stands.
pub proof fn law_pod_is_ignored(
    before: Seq<Seq<char>>,
    open: Seq<char>,
    block: Seq<Seq<char>>,
    after: Seq<Seq<char>>,
)
    requires
        !pod_before(before, false, before.len() as int),
        opens_pod(open),
        block.len() > 0,
        closes_pod(block.last()),
        forall|i: int| 0 <= i < block.len() - 1 ==> !closes_pod(#[trigger] block[i]),
    ensures
        first_version(before + (seq![open] + block + after), false) == first_version(
            before + after,
            false,
        ),
{
    let pod = seq![open] + block + after;
    assert(pod[0] == open);
    assert(pod.drop_first() == block + after);
    lemma_skip_pod(block, after);
    lemma_same_after(before, pod, after, false);
}

proof fn lemma_without_comment(
    before: Seq<Seq<char>>,
    comment: Seq<char>,
    after: Seq<Seq<char>>,
    in_pod: bool,
)
    requires
        is_comment(comment),
    ensures
        first_version(before + (seq![comment] + after), in_pod) == first_version(
            before + after,
            in_pod,
        ),
    decreases before.len(),
{
    let with = before + (seq![comment] + after);
    let without = before + after;
    if before.len() == 0 {
        lemma_comment_is_no_mark(comment);
        assert(with[0] == comment);
        assert(with.drop_first() == after);
        assert(without == after);
    } else {
        let rest = before.drop_first();
        assert(with[0] == before[0]);
        assert(without[0] == before[0]);
        assert(with.drop_first() == rest + (seq![comment] + after));
        assert(without.drop_first() == rest + after);
        lemma_without_comment(rest, comment, after, pod_after(in_pod, before[0]));
    }
}

/// A comment counts for nothing, wherever it stands.
pub proof fn law_comments_are_ignored(
    before: Seq<Seq<char>>,
    comment: Seq<char>,
    after: Seq<Seq<char>>,
)
    requires
        is_comment(comment),
    ensures
        first_version(before + (seq![comment] + after), false) == first_version(
            before + after,
            false,
        ),
{
    lemma_without_comment(before, comment, after, false);
}

proof fn lemma_comment_is_no_mark(line: Seq<char>)
    requires
        is_comment(line),
    ensures
        !opens_pod(line),
        !closes_pod(line),
        !ends_program(line),
{
    reveal_strlit("=cut");
    reveal_strlit("__END__");
    reveal_strlit("__DATA__");
    let class = CharClass::Space;
    text::lemma_leading(line, class);
    text::lemma_trailing(line, class);
    let n = text::leading(line, class) as int;
    assert(line[n] == '#');
    assert(!class.has('#'));
    assert(!class.has('='));
    if n > 0 {
        assert(class.has(line[0]));
    }
    if closes_pod(line) {
        assert(line.subrange(0, 4)[0] == "=cut"@[0]);
    }
    let end = text::trim_end(line, class);
    if ends_program(line) {
        assert(end[0] == line[0]);
        assert(end[0] == '_');
        assert(!class.has('_'));
    }
}

/// Whether `version` is plain text: it looks like a version, does not start with white
/// space, and does not end in `.` or `_`.
pub open spec fn is_plain_version(version: Seq<char>) -> bool {
    &&& looks_like_version(version)
    &&& !outside::is_white_space(version[0])
    &&& version.last() != '.'
    &&& version.last() != '_'
}

proof fn lemma_cleaned(value: Seq<char>, version: Seq<char>)
    requires
        cleaned(value) == Some(version),
    ensures
        is_plain_version(version),
        text::contains(value, version),
{
    text::lemma_leading(value, CharClass::Space);
    let n = text::leading(value, CharClass::Space) as int;
    let start = text::trim_start(value);
    text::lemma_trailing(start, CharClass::Space);
    let middle = text::trim(value);
    text::lemma_trimmed_ends(value);
    text::lemma_trailing(middle, CharClass::Separator);
    assert(version.len() > 0);
    assert(version[0] == middle[0]);
    assert(value.subrange(n, n + version.len()) == version);
    assert(text::occurs_at(value, version, n));
}

proof fn lemma_cleaned_part(s: Seq<char>, from: int, to: int, version: Seq<char>)
    requires
        0 <= from <= to <= s.len(),
        cleaned(s.subrange(from, to)) == Some(version),
    ensures
        is_plain_version(version),
        text::contains(s, version),
{
    lemma_cleaned(s.subrange(from, to), version);
    text::lemma_contains_part(s, from, to, version);
}

proof fn lemma_number_len(s: Seq<char>)
    ensures
        0 <= number_len(s) <= s.len(),
{
    let v: int = if s.len() > 0 && (s[0] == 'v' || s[0] == 'V') {
        1
    } else {
        0
    };
    text::lemma_leading(s.skip(v), CharClass::Number);
}

proof fn lemma_quote_at(s: Seq<char>, i: int, depth: nat)
    requires
        0 <= i,
    ensures
        quote_at(s, i, depth) matches Some(at) ==> i <= at < s.len() && is_quote(s[at]),
    decreases s.len() - i,
{
    if i < s.len() {
        lemma_quote_at(s, i + 1, depth_after(depth, s[i]));
    }
}

proof fn lemma_assigned_value(rhs: Seq<char>, version: Seq<char>)
    requires
        assigned_value(rhs) == Some(version),
    ensures
        is_plain_version(version),
        text::contains(rhs, version),
{
    text::lemma_leading(rhs, CharClass::Space);
    let skipped = text::leading(rhs, CharClass::Space) as int;
    let value = text::trim_start(rhs);
    if starts_with_number(value) {
        let n = number_len(value);
        lemma_number_len(value);
        assert(value.take(n) == rhs.subrange(skipped, skipped + n));
        lemma_cleaned_part(rhs, skipped, skipped + n, version);
    } else {
        lemma_quote_at(value, 0, 0);
        let open = quote_at(value, 0, 0)->0;
        let inner = value.skip(open + 1);
        let close = text::leading(inner, CharClass::Except(value[open])) as int;
        assert(close < inner.len());
        text::lemma_leading(inner, CharClass::Except(value[open]));
        let from = skipped + open + 1;
        assert(inner.take(close) == rhs.subrange(from, from + close));
        lemma_cleaned_part(rhs, from, from + close, version);
    }
}

proof fn lemma_assignment(s: Seq<char>, i: int)
    requires
        0 <= i,
    ensures
        assignment_from(s, i) matches Some(at) ==> i <= at < s.len() && is_assignment(s, at),
    decreases s.len() - i,
{
    if i < s.len() {
        lemma_assignment(s, i + 1);
    }
}

proof fn lemma_assigned_from(line: Seq<char>, p: int, version: Seq<char>)
    requires
        0 <= p,
        assigned_from(line, p) == Some(version),
    ensures
        is_plain_version(version),
        text::contains(line, version),
    decreases line.len() - p,
{
    if version_at(line, p) is Some {
        reveal_strlit("VERSION");
        let tail = line.skip(p + 7);
        lemma_assignment(tail, 0);
        let from = p + 7 + assignment_from(tail, 0)->0 + 1;
        lemma_assigned_value(line.skip(from), version);
        assert(line.skip(from) == line.subrange(from, line.len() as int));
        text::lemma_contains_part(line, from, line.len() as int, version);
    } else {
        lemma_assigned_from(line, p + 1, version);
    }
}

proof fn lemma_package_version(line: Seq<char>, version: Seq<char>)
    requires
        package_version(line) == Some(version),
    ensures
        is_plain_version(version),
        text::contains(line, version),
{
    reveal_strlit("package");
    let rest = line.skip(7);
    text::lemma_leading(rest, CharClass::Space);
    let a = text::leading(rest, CharClass::Space) as int;
    let name = text::trim_start(rest);
    text::lemma_leading(name, CharClass::Qualified);
    let b = text::leading(name, CharClass::Qualified) as int;
    let tail = name.skip(b);
    text::lemma_leading(tail, CharClass::Space);
    let c = text::leading(tail, CharClass::Space) as int;
    let s = text::trim_start(tail);
    lemma_number_len(s);
    let n = number_len(s);
    let from = 7 + a + b + c;
    assert(s.take(n) == line.subrange(from, from + n));
    lemma_cleaned_part(line, from, from + n, version);
}

proof fn lemma_line_version(line: Seq<char>, version: Seq<char>)
    requires
        line_version(line) == Some(version),
    ensures
        is_plain_version(version),
        text::contains(line, version),
{
    let code = text::trim_start(line);
    if package_version(code) is Some {
        lemma_package_version(code, version);
        text::lemma_leading(line, CharClass::Space);
        let n = text::leading(line, CharClass::Space) as int;
        assert(code == line.subrange(n, line.len() as int));
        text::lemma_contains_part(line, n, line.len() as int, version);
    } else {
        lemma_assigned_from(line, 0, version);
    }
}

/// A version is plain text that stands in the source as it is, on one line.
pub proof fn law_version_is_text_of_the_source(source: Seq<char>)
    ensures
        declared_version(source) matches Some(version) ==> {
            &&& is_plain_version(version)
            &&& exists|i: int|
                0 <= i < text::lines(source).len() && text::contains(
                    #[trigger] text::lines(source)[i],
                    version,
                )
            &&& text::contains(source, version)
        },
{
    let lines = text::lines(source);
    lemma_first_version(lines, false);
    if let Some(version) = declared_version(source) {
        let i = choose|i: int|
            #[trigger] is_first_declaration(lines, false, i) && line_version(lines[i]) == Some(
                version,
            );
        lemma_line_version(lines[i], version);
        text::lemma_contains_line(source, i, version);
    }
}

/// Text that ends in the name of a variable `VERSION`, qualified or not.
pub open spec fn variable(before: Seq<char>, sigil: char, qualifier: Seq<char>) -> Seq<char> {
    before + seq![sigil] + qualifier + "VERSION"@
}

/// Whether [`variable`] names a variable `VERSION` and nothing before it is called so.
pub open spec fn is_first_variable(before: Seq<char>, sigil: char, qualifier: Seq<char>) -> bool {
    &&& !text::contains(before, "VERSION"@)
    &&& sigil == '$' || sigil == '*'
    &&& is_qualifier(qualifier)
    &&& !text::contains(qualifier, "VERSION"@)
    &&& forall|i: int|
        0 <= i < qualifier.len() ==> CharClass::Qualified.has(#[trigger] qualifier[i])
}

/// A line that assigns `rhs` to a variable `VERSION`, with `gap` before the `=`.
pub open spec fn assigning_line(
    before: Seq<char>,
    sigil: char,
    qualifier: Seq<char>,
    gap: Seq<char>,
    rhs: Seq<char>,
) -> Seq<char> {
    variable(before, sigil, qualifier) + (gap + seq!['='] + rhs)
}

/// A right-hand side with `version` in quotes between `call` and `rest`.
pub open spec fn quoted_value(
    call: Seq<char>,
    quote: char,
    version: Seq<char>,
    rest: Seq<char>,
) -> Seq<char> {
    call + (seq![quote] + version + seq![quote] + rest)
}

/// Whether every character of `s` is white space.
pub open spec fn is_blank(s: Seq<char>) -> bool {
    forall|i: int| 0 <= i < s.len() ==> CharClass::Space.has(#[trigger] s[i])
}

/// How many brackets are open in `s` before position `i`.
pub open spec fn depth_at(s: Seq<char>, i: int) -> nat
    decreases i,
{
    if i <= 0 {
        0
    } else {
        depth_after(depth_at(s, i - 1), s[i - 1])
    }
}

/// Whether a `;` that ends the statement stands in `s` at position `i`.
pub open spec fn ends_at(s: Seq<char>, i: int) -> bool {
    s[i] == ';' && depth_at(s, i) == 0
}

/// Whether a quoted string behind `call` is the value that is assigned: no string, no bare
/// literal and no end of the statement comes before it, and the `=` before `call` is a
/// plain assignment.
pub open spec fn leads_to_quote(call: Seq<char>) -> bool {
    &&& forall|i: int| 0 <= i < call.len() ==> !is_quote(#[trigger] call[i])
    &&& forall|i: int| 0 <= i < call.len() ==> !#[trigger] ends_at(call, i)
    &&& !starts_with_number(text::trim_start(call))
    &&& !(call.len() > 0 && (call[0] == '=' || call[0] == '~' || call[0] == '>'))
}

/// What follows does not change how many brackets are open before.
proof fn lemma_depth_of_extension(s: Seq<char>, more: Seq<char>, i: int)
    requires
        0 <= i <= s.len(),
    ensures
        depth_at(s + more, i) == depth_at(s, i),
    decreases i,
{
    if i > 0 {
        lemma_depth_of_extension(s, more, i - 1);
        assert((s + more)[i - 1] == s[i - 1]);
    }
}

/// White space at the start opens no brackets.
proof fn lemma_depth_of_trimmed(s: Seq<char>, i: int)
    requires
        0 <= i <= text::trim_start(s).len(),
    ensures
        depth_at(text::trim_start(s), i) == depth_at(
            s,
            text::leading(s, CharClass::Space) + i,
        ),
    decreases i,
{
    text::lemma_leading(s, CharClass::Space);
    let n = text::leading(s, CharClass::Space) as int;
    if i > 0 {
        lemma_depth_of_trimmed(s, i - 1);
        assert(text::trim_start(s)[i - 1] == s[n + i - 1]);
    } else {
        lemma_depth_of_blank(s, n);
    }
}

proof fn lemma_depth_of_blank(s: Seq<char>, n: int)
    requires
        0 <= n <= text::leading(s, CharClass::Space),
    ensures
        depth_at(s, n) == 0,
    decreases n,
{
    if n > 0 {
        text::lemma_leading(s, CharClass::Space);
        lemma_depth_of_blank(s, n - 1);
        assert(CharClass::Space.has(s[n - 1]));
    }
}

/// The first quote is found if the statement does not end before it.
proof fn lemma_quote_is(s: Seq<char>, i: int, open: int)
    requires
        0 <= i <= open < s.len(),
        is_quote(s[open]),
        forall|j: int| i <= j < open ==> !is_quote(#[trigger] s[j]),
        forall|j: int| i <= j < open ==> !#[trigger] ends_at(s, j),
    ensures
        quote_at(s, i, depth_at(s, i)) == Some(open),
    decreases open - i,
{
    if i < open {
        assert(!is_quote(s[i]));
        assert(!ends_at(s, i));
        assert(depth_at(s, i + 1) == depth_after(depth_at(s, i), s[i]));
        lemma_quote_is(s, i + 1, open);
    }
}

/// There is no quote before the end of the statement if there is none before `end`.
proof fn lemma_no_quote(s: Seq<char>, i: int, end: int)
    requires
        0 <= i <= end <= s.len(),
        end < s.len() ==> ends_at(s, end),
        forall|j: int| i <= j < end ==> !is_quote(#[trigger] s[j]),
    ensures
        quote_at(s, i, depth_at(s, i)) is None,
    decreases end - i,
{
    if i < end {
        assert(!is_quote(s[i]));
        assert(depth_at(s, i + 1) == depth_after(depth_at(s, i), s[i]));
        lemma_no_quote(s, i + 1, end);
    }
}

/// The name of the variable stands behind its sigil and qualifier.
proof fn lemma_variable_stands(
    before: Seq<char>,
    sigil: char,
    qualifier: Seq<char>,
    after: Seq<char>,
)
    requires
        is_first_variable(before, sigil, qualifier),
        !(after.len() > 0 && text::is_word(after[0])),
    ensures
        ({
            let line = variable(before, sigil, qualifier) + after;
            let p = (before.len() + 1 + qualifier.len()) as int;
            &&& version_variable_at(line, p)
            &&& line.skip(p + 7) == after
        }),
{
    reveal_strlit("VERSION");
    let line = variable(before, sigil, qualifier) + after;
    let b = before.len() as int;
    let p = (b + 1 + qualifier.len()) as int;
    let prefix = before + seq![sigil] + qualifier;
    assert(line.take(p) == prefix);
    assert(line.subrange(p, p + 7) == "VERSION"@);
    assert(line.skip(p + 7) == after);
    if after.len() > 0 {
        assert(line[p + 7] == after[0]);
    }
    assert(ends_in_sigil(prefix)) by {
        let class = CharClass::Qualified;
        assert forall|i: int| prefix.len() - qualifier.len() <= i < prefix.len() implies class.has(
            #[trigger] prefix[i],
        ) by {
            assert(prefix[i] == qualifier[i - b - 1]);
        }
        assert(prefix[b] == sigil);
        text::lemma_trailing_is(prefix, class, qualifier.len() as int);
        assert(text::trim_end(prefix, class) == before + seq![sigil]);
        assert(prefix.skip(b + 1) == qualifier);
    }
}

/// Nothing before the name of the variable is called `VERSION`.
proof fn lemma_no_earlier_name(
    before: Seq<char>,
    sigil: char,
    qualifier: Seq<char>,
    after: Seq<char>,
    j: int,
)
    requires
        is_first_variable(before, sigil, qualifier),
        0 <= j < before.len() + 1 + qualifier.len(),
    ensures
        !text::occurs_at(variable(before, sigil, qualifier) + after, "VERSION"@, j),
{
    reveal_strlit("VERSION");
    let line = variable(before, sigil, qualifier) + after;
    let word = "VERSION"@;
    let b = before.len() as int;
    let p = (b + 1 + qualifier.len()) as int;
    if text::occurs_at(line, word, j) {
        let part = line.subrange(j, j + 7);
        assert(part == word);
        if j <= b < j + 7 {
            assert(part[b - j] == sigil);
        } else if j + 7 <= b {
            assert(before.subrange(j, j + 7) == part);
            assert(text::occurs_at(before, word, j));
        } else if j + 7 <= p {
            let k = j - b - 1;
            assert(qualifier.subrange(k, k + 7) == part);
            assert(text::occurs_at(qualifier, word, k));
        } else {
            // A name that overlaps the variable's own would have a `V` inside.
            assert(part[p - j] == line[p]);
            assert(line[p] == word[0]);
        }
    }
}

/// The first `=` behind white space is the assignment.
proof fn lemma_assignment_behind(gap: Seq<char>, rhs: Seq<char>, i: int)
    requires
        0 <= i <= gap.len(),
        is_blank(gap),
        !(rhs.len() > 0 && (rhs[0] == '=' || rhs[0] == '~' || rhs[0] == '>')),
    ensures
        assignment_from(gap + seq!['='] + rhs, i) == Some(gap.len() as int),
    decreases gap.len() - i,
{
    let s = gap + seq!['='] + rhs;
    let n = gap.len() as int;
    assert(s[n] == '=');
    if i < n {
        assert(s[i] == gap[i]);
        assert(CharClass::Space.has(gap[i]));
        lemma_assignment_behind(gap, rhs, i + 1);
    } else {
        if n > 0 {
            assert(s[n - 1] == gap[n - 1]);
            assert(CharClass::Space.has(gap[n - 1]));
        }
        if rhs.len() > 0 {
            assert(s[n + 1] == rhs[0]);
        }
        assert(is_assignment(s, n));
    }
}

/// What is assigned to the first variable `VERSION` of a line is the version of the line.
proof fn lemma_assigned_to_first(
    before: Seq<char>,
    sigil: char,
    qualifier: Seq<char>,
    gap: Seq<char>,
    rhs: Seq<char>,
)
    requires
        is_first_variable(before, sigil, qualifier),
        is_blank(gap),
        !(rhs.len() > 0 && (rhs[0] == '=' || rhs[0] == '~' || rhs[0] == '>')),
        assigned_value(rhs) is Some,
    ensures
        assigned_from(assigning_line(before, sigil, qualifier, gap, rhs), 0) == assigned_value(rhs),
{
    reveal_strlit("VERSION");
    let after = gap + seq!['='] + rhs;
    let line = assigning_line(before, sigil, qualifier, gap, rhs);
    let p = (before.len() + 1 + qualifier.len()) as int;
    if gap.len() > 0 {
        assert(after[0] == gap[0]);
        assert(CharClass::Space.has(gap[0]));
    } else {
        assert(after[0] == '=');
    }
    lemma_variable_stands(before, sigil, qualifier, after);
    assert forall|j: int| 0 <= j < p implies version_at(line, j) is None by {
        lemma_no_earlier_name(before, sigil, qualifier, after, j);
    }
    lemma_assignment_behind(gap, rhs, 0);
    let eq = gap.len() as int;
    assert(line.skip(p + 7 + eq + 1) == line.skip(p + 7).skip(eq + 1));
    assert(after.skip(eq + 1) == rhs);
    lemma_assigned_first(line, 0, p);
}

/// White space at the start of `a` is all the white space at the start of `a + b`, if `b`
/// does not start with some.
proof fn lemma_trim_start_concat(a: Seq<char>, b: Seq<char>)
    requires
        b.len() > 0 ==> !outside::is_white_space(b[0]),
    ensures
        text::trim_start(a + b) == text::trim_start(a) + b,
{
    let class = CharClass::Space;
    text::lemma_leading(a, class);
    let n = text::leading(a, class) as int;
    let s = a + b;
    assert forall|i: int| 0 <= i < n implies class.has(#[trigger] s[i]) by {
        assert(s[i] == a[i]);
    }
    if n < a.len() {
        assert(s[n] == a[n]);
    } else if b.len() > 0 {
        assert(s[n] == b[0]);
    }
    text::lemma_leading_is(s, class, n);
    assert(s.skip(n) == a.skip(n) + b);
}

proof fn lemma_quoted_value(call: Seq<char>, quote: char, version: Seq<char>, rest: Seq<char>)
    requires
        leads_to_quote(call),
        is_quote(quote),
        !version.contains(quote),
    ensures
        assigned_value(quoted_value(call, quote, version, rest)) == cleaned(version),
{
    let string = seq![quote] + version + seq![quote] + rest;
    let head = text::trim_start(call);
    let value = head + string;
    assert(string[0] == quote);
    lemma_trim_start_concat(call, string);
    assert(text::trim_start(call + string) == value);
    text::lemma_leading(call, CharClass::Space);
    let skipped = text::leading(call, CharClass::Space) as int;
    let open = head.len() as int;
    assert(value[open] == quote);
    if open > 0 {
        assert(value[0] == head[0]);
    }
    if open > 1 {
        assert(value[1] == head[1]);
    }
    assert(!starts_with_number(value));
    assert forall|i: int| 0 <= i < open implies !is_quote(#[trigger] value[i]) by {
        assert(value[i] == call[skipped + i]);
    }
    assert forall|i: int| 0 <= i < open implies !#[trigger] ends_at(value, i) by {
        assert(value[i] == call[skipped + i]);
        lemma_depth_of_extension(head, string, i);
        lemma_depth_of_trimmed(call, i);
        assert(!ends_at(call, skipped + i));
    }
    lemma_quote_is(value, 0, open);
    let inner = value.skip(open + 1);
    assert(inner == version + seq![quote] + rest);
    let n = version.len() as int;
    assert forall|i: int| 0 <= i < n implies CharClass::Except(quote).has(#[trigger] inner[i]) by {
        assert(inner[i] == version[i]);
        assert(version.contains(version[i]));
    }
    assert(inner[n] == quote);
    text::lemma_leading_is(inner, CharClass::Except(quote), n);
    assert(inner.take(n) == version);
}

/// A version that is assigned in quotes, or in quotes as the argument of a call, is read,
/// whatever stands around the assignment, unless the line is a `package` statement with a
/// version of its own.
pub proof fn law_assigned_version_is_read(
    before: Seq<char>,
    sigil: char,
    qualifier: Seq<char>,
    gap: Seq<char>,
    call: Seq<char>,
    quote: char,
    version: Seq<char>,
    rest: Seq<char>,
)
    requires
        is_first_variable(before, sigil, qualifier),
        is_blank(gap),
        leads_to_quote(call),
        is_quote(quote),
        !version.contains(quote),
        cleaned(version) is Some,
        ({
            let rhs = quoted_value(call, quote, version, rest);
            let line = assigning_line(before, sigil, qualifier, gap, rhs);
            package_version(text::trim_start(line)) is None
        }),
    ensures
        ({
            let rhs = quoted_value(call, quote, version, rest);
            line_version(assigning_line(before, sigil, qualifier, gap, rhs)) == cleaned(version)
        }),
{
    let rhs = quoted_value(call, quote, version, rest);
    assert(rhs[0] == if call.len() > 0 {
        call[0]
    } else {
        quote
    });
    lemma_quoted_value(call, quote, version, rest);
    lemma_assigned_to_first(before, sigil, qualifier, gap, rhs);
}

/// A version that is assigned as a bare literal is read, whatever stands around the
/// assignment, unless the line is a `package` statement with a version of its own.
pub proof fn law_bare_version_is_read(
    before: Seq<char>,
    sigil: char,
    qualifier: Seq<char>,
    gap: Seq<char>,
    space: Seq<char>,
    version: Seq<char>,
    rest: Seq<char>,
)
    requires
        is_first_variable(before, sigil, qualifier),
        is_blank(gap),
        is_blank(space),
        starts_with_number(version),
        number_len(version) == version.len(),
        rest.len() > 0 ==> !CharClass::Number.has(rest[0]),
        ({
            let rhs = space + (version + rest);
            let line = assigning_line(before, sigil, qualifier, gap, rhs);
            package_version(text::trim_start(line)) is None
        }),
    ensures
        cleaned(version) is Some,
        ({
            let rhs = space + (version + rest);
            line_version(assigning_line(before, sigil, qualifier, gap, rhs)) == cleaned(version)
        }),
{
    let value = version + rest;
    let rhs = space + value;
    assert(value[0] == version[0]);
    lemma_bare_literal(version);
    lemma_number_and_rest(version, rest);
    lemma_blank(space, value);
    if version.len() > 1 {
        assert(value[1] == version[1]);
    }
    assert(assigned_value(rhs) == cleaned(version));
    if space.len() > 0 {
        assert(rhs[0] == space[0]);
        assert(CharClass::Space.has(space[0]));
    } else {
        assert(rhs[0] == value[0]);
    }
    lemma_assigned_to_first(before, sigil, qualifier, gap, rhs);
}

/// A variable is only read from where its whole name is `VERSION`: where that text is
/// always part of a longer word, nothing is.
pub proof fn law_version_is_a_whole_word(line: Seq<char>)
    requires
        forall|p: int| #[trigger]
            text::occurs_at(line, "VERSION"@, p) ==> (p > 0 && text::is_word(line[p - 1])) || (p + 7
                < line.len() && text::is_word(line[p + 7])),
    ensures
        assigned_from(line, 0) is None,
{
    lemma_parts_of_words(line, 0);
}

proof fn lemma_parts_of_words(line: Seq<char>, p: int)
    requires
        0 <= p,
        forall|p: int| #[trigger]
            text::occurs_at(line, "VERSION"@, p) ==> (p > 0 && text::is_word(line[p - 1])) || (p + 7
                < line.len() && text::is_word(line[p + 7])),
    ensures
        assigned_from(line, p) is None,
    decreases line.len() - p,
{
    if p < line.len() {
        if version_variable_at(line, p) {
            let prefix = line.take(p);
            let class = CharClass::Qualified;
            text::lemma_trailing(prefix, class);
            assert(prefix.last() == line[p - 1]);
            let rest = text::trim_end(prefix, class);
            let qualifier = prefix.skip(rest.len() as int);
            assert(class.has(prefix.last()));
            assert(text::trailing(prefix, class) > 0);
            assert(qualifier.last() == prefix.last());
        }
        lemma_parts_of_words(line, p + 1);
    }
}

/// What follows the `;` that ends an assignment does not count.
pub proof fn law_value_ends_with_the_statement(head: Seq<char>, tail: Seq<char>)
    requires
        forall|i: int| 0 <= i < head.len() ==> !is_quote(#[trigger] head[i]),
        depth_at(head, head.len() as int) == 0,
    ensures
        assigned_value(head + (seq![';'] + tail)) == assigned_value(head),
{
    let more = seq![';'] + tail;
    assert(more[0] == ';');
    lemma_trim_start_concat(head, more);
    text::lemma_leading(head, CharClass::Space);
    let skipped = text::leading(head, CharClass::Space) as int;
    let value = text::trim_start(head);
    let long = value + more;
    assert(long[value.len() as int] == ';');
    assert forall|i: int| 0 <= i < value.len() implies !is_quote(#[trigger] value[i]) && long[i]
        == value[i] by {
        assert(value[i] == head[skipped + i]);
    }
    assert(starts_with_number(long) == starts_with_number(value)) by {
        if value.len() > 0 {
            assert(long[0] == value[0]);
        }
        if value.len() > 1 {
            assert(long[1] == value[1]);
        }
    }
    if starts_with_number(value) {
        let v: int = if value[0] == 'v' || value[0] == 'V' {
            1
        } else {
            0
        };
        let class = CharClass::Number;
        let short = value.skip(v);
        text::lemma_leading(short, class);
        let n = text::leading(short, class) as int;
        let digits = long.skip(v);
        assert forall|i: int| 0 <= i < n implies class.has(#[trigger] digits[i]) by {
            assert(digits[i] == short[i]);
        }
        if n < short.len() {
            assert(digits[n] == short[n]);
        } else {
            assert(digits[n] == ';');
        }
        text::lemma_leading_is(digits, class, n);
        assert(long.take(v + n) == value.take(v + n));
    } else {
        let n = value.len() as int;
        lemma_depth_of_trimmed(head, n);
        lemma_depth_of_extension(value, more, n);
        assert(ends_at(long, n));
        lemma_no_quote(value, 0, n);
        lemma_no_quote(long, 0, n);
    }
}

/// White space before other text is trimmed off.
proof fn lemma_blank(space: Seq<char>, s: Seq<char>)
    requires
        is_blank(space),
        s.len() > 0,
        !outside::is_white_space(s[0]),
    ensures
        text::leading(space + s, CharClass::Space) == space.len(),
        text::trim_start(space + s) == s,
{
    let all = space + s;
    assert forall|i: int| 0 <= i < space.len() implies CharClass::Space.has(#[trigger] all[i]) by {
        assert(all[i] == space[i]);
    }
    assert(all[space.len() as int] == s[0]);
    text::lemma_leading_is(all, CharClass::Space, space.len() as int);
    assert(all.skip(space.len() as int) == s);
}

/// A bare literal with a digit at its start, or right behind a `v`, is a version.
proof fn lemma_bare_literal(version: Seq<char>)
    requires
        starts_with_number(version),
        number_len(version) == version.len(),
    ensures
        cleaned(version) is Some,
        !outside::is_white_space(version[0]),
{
    let v: int = if version[0] == 'v' || version[0] == 'V' {
        1
    } else {
        0
    };
    text::lemma_leading(version.skip(v), CharClass::Number);
    assert forall|i: int| 0 <= i < version.len() implies !outside::is_white_space(
        #[trigger] version[i],
    ) && !is_reference(version[i]) by {
        if i >= v {
            assert(version.skip(v)[i - v] == version[i]);
            assert(CharClass::Number.has(version.skip(v)[i - v]));
        }
    }
    text::lemma_leading_is(version, CharClass::Space, 0);
    assert(text::trim_start(version) == version);
    text::lemma_trailing_is(version, CharClass::Space, 0);
    assert(text::trim(version) == version);
    text::lemma_trailing(version, CharClass::Separator);
    let cut = text::trim_end(version, CharClass::Separator);
    assert(text::is_digit(version[v]));
    assert(!CharClass::Separator.has(version[v]));
    assert(cut.len() > v) by {
        if cut.len() <= v {
            assert(CharClass::Separator.has(version[v]));
        }
    }
    assert(text::is_digit(cut[v]));
    assert(looks_like_version(cut));
}

/// A bare literal ends where no further character of a number follows.
proof fn lemma_number_and_rest(literal: Seq<char>, rest: Seq<char>)
    requires
        literal.len() > 0,
        number_len(literal) == literal.len(),
        rest.len() > 0 ==> !CharClass::Number.has(rest[0]),
    ensures
        number_len(literal + rest) == literal.len(),
        (literal + rest).take(literal.len() as int) == literal,
        (literal + rest).skip(literal.len() as int) == rest,
{
    let s = literal + rest;
    let v: int = if literal[0] == 'v' || literal[0] == 'V' {
        1
    } else {
        0
    };
    assert(s[0] == literal[0]);
    let digits = s.skip(v);
    text::lemma_leading(literal.skip(v), CharClass::Number);
    let m = literal.len() - v;
    assert forall|i: int| 0 <= i < m implies CharClass::Number.has(#[trigger] digits[i]) by {
        assert(digits[i] == literal.skip(v)[i]);
    }
    if m < digits.len() {
        assert(digits[m] == rest[0]);
    }
    text::lemma_leading_is(digits, CharClass::Number, m);
}

proof fn lemma_assigned_first(line: Seq<char>, from: int, p: int)
    requires
        0 <= from <= p < line.len(),
        version_at(line, p) is Some,
        forall|j: int| from <= j < p ==> version_at(line, j) is None,
    ensures
        assigned_from(line, from) == version_at(line, p),
    decreases p - from,
{
    if from < p {
        lemma_assigned_first(line, from + 1, p);
    }
}

/// The version of a `package NAME VERSION` statement is read, whatever white space stands
/// around its parts.
pub proof fn law_package_version_is_read(
    indent: Seq<char>,
    gap: Seq<char>,
    name: Seq<char>,
    space: Seq<char>,
    version: Seq<char>,
    end: Seq<char>,
)
    requires
        is_blank(indent),
        gap.len() > 0,
        is_blank(gap),
        name.len() > 0,
        forall|i: int| 0 <= i < name.len() ==> CharClass::Qualified.has(#[trigger] name[i]),
        space.len() > 0,
        is_blank(space),
        number_len(version) == version.len(),
        cleaned(version) is Some,
        ends_statement(end),
    ensures
        line_version(indent + ("package"@ + (gap + (name + (space + (version + end))))))
            == cleaned(version),
{
    reveal_strlit("package");
    let tail = space + (version + end);
    let code = "package"@ + (gap + (name + tail));
    assert(code[0] == 'p');
    lemma_blank(indent, code);
    lemma_literal_starts(version);
    lemma_numeric_version(version, end);
    lemma_package_statement(gap, name, tail);
    assert((version + end)[0] == version[0]);
    lemma_blank(space, version + end);
    assert(tail[0] == space[0]);
    assert(CharClass::Space.has(space[0]));
}

/// A bare literal that holds a version does not start with white space.
proof fn lemma_literal_starts(literal: Seq<char>)
    requires
        number_len(literal) == literal.len(),
        cleaned(literal) is Some,
    ensures
        literal.len() > 0,
        !outside::is_white_space(literal[0]),
{
    lemma_cleaned(literal, cleaned(literal)->0);
    if !(literal[0] == 'v' || literal[0] == 'V') {
        text::lemma_leading(literal.skip(0), CharClass::Number);
        assert(CharClass::Number.has(literal.skip(0)[0]));
    }
}

/// A version literal is read up to the end of the statement.
proof fn lemma_numeric_version(literal: Seq<char>, end: Seq<char>)
    requires
        literal.len() > 0,
        number_len(literal) == literal.len(),
        ends_statement(end),
    ensures
        numeric_version(literal + end) == cleaned(literal),
{
    text::lemma_leading(end, CharClass::Space);
    let n = text::leading(end, CharClass::Space) as int;
    if end.len() > 0 {
        if n > 0 {
            assert(CharClass::Space.has(end[0]));
        } else {
            assert(text::trim_start(end)[0] == end[0]);
        }
    }
    lemma_number_and_rest(literal, end);
}

/// What follows the name of a `package` statement is read as its version.
proof fn lemma_package_statement(gap: Seq<char>, name: Seq<char>, tail: Seq<char>)
    requires
        gap.len() > 0,
        is_blank(gap),
        name.len() > 0,
        forall|i: int| 0 <= i < name.len() ==> CharClass::Qualified.has(#[trigger] name[i]),
        tail.len() > 0 ==> !CharClass::Qualified.has(tail[0]),
    ensures
        package_version("package"@ + (gap + (name + tail))) == numeric_version(
            text::trim_start(tail),
        ),
{
    reveal_strlit("package");
    let line = "package"@ + (gap + (name + tail));
    assert(line.subrange(0, 7) == "package"@);
    let rest = gap + (name + tail);
    assert(line.skip(7) == rest);
    assert(rest[0] == gap[0]);
    assert(CharClass::Space.has(gap[0]));
    let after = name + tail;
    assert(CharClass::Qualified.has(name[0]));
    assert(after[0] == name[0]);
    lemma_blank(gap, after);
    let n = name.len() as int;
    assert forall|i: int| 0 <= i < n implies CharClass::Qualified.has(#[trigger] after[i]) by {
        assert(after[i] == name[i]);
    }
    if tail.len() > 0 {
        assert(after[n] == tail[0]);
    }
    text::lemma_leading_is(after, CharClass::Qualified, n);
    assert(after.skip(n) == tail);
}

/// Whether `value` has a digit and neither `%` nor `$` nor `@`.
pub open spec fn is_literal_version(value: Seq<char>) -> bool {
    &&& exists|i: int| 0 <= i < value.len() && alphabet::digit(#[trigger] value[i])
    &&& forall|i: int| 0 <= i < value.len() ==> !alphabet::reference(#[trigger] value[i])
}

/// A version is given back character for character: of the literal that holds it only the
/// white space around it and the `.` and `_` at its end are missing.
pub proof fn law_version_is_kept(
    before: Seq<char>,
    version: Seq<char>,
    marks: Seq<char>,
    after: Seq<char>,
)
    requires
        alphabet::all_white(before),
        version.len() > 0,
        !alphabet::white(version[0]),
        !alphabet::separator(version.last()),
        marks.len() == 0 ==> !alphabet::white(version.last()),
        forall|i: int| 0 <= i < marks.len() ==> alphabet::separator(#[trigger] marks[i]),
        alphabet::all_white(after),
    ensures
        cleaned(before + version + marks + after) == (if is_literal_version(version) {
            Some(version)
        } else {
            None
        }),
{
    let core = version + marks;
    assert(core[0] == version[0]);
    if marks.len() > 0 {
        assert(core.last() == marks[marks.len() - 1]);
        assert(alphabet::separator(marks[marks.len() - 1]));
    } else {
        assert(core.last() == version.last());
    }
    assert(before + version + marks + after == before + core + after);
    text::law_trimming(before, core, after);
    assert forall|i: int| 0 <= i < marks.len() implies CharClass::Separator.has(
        #[trigger] marks[i],
    ) by {
        assert(alphabet::separator(marks[i]));
    }
    text::law_runs_are_longest(marks, version, CharClass::Separator);
    assert(text::trim_end(core, CharClass::Separator) == version);
    lemma_literal_version(version);
}

proof fn lemma_literal_version(value: Seq<char>)
    ensures
        looks_like_version(value) == is_literal_version(value),
{
    if is_literal_version(value) {
        let i = choose|i: int| 0 <= i < value.len() && alphabet::digit(#[trigger] value[i]);
        assert(text::is_digit(value[i]));
        assert forall|i: int| 0 <= i < value.len() implies !is_reference(#[trigger] value[i]) by {
            assert(!alphabet::reference(value[i]));
        }
    }
    if looks_like_version(value) {
        let i = choose|i: int| 0 <= i < value.len() && text::is_digit(#[trigger] value[i]);
        assert(alphabet::digit(value[i]));
        assert forall|i: int| 0 <= i < value.len() implies !alphabet::reference(
            #[trigger] value[i],
        ) by {
            assert(!is_reference(value[i]));
        }
    }
}

/// A literal is a version exactly if it has a digit and neither `%` nor `$` nor `@`. What
/// is missing from the version is white space at the start of the literal, white space at
/// its end, and a run of `.` and `_` before that.
pub proof fn law_version_of_a_literal(value: Seq<char>)
    ensures
        cleaned(value) is Some <==> is_literal_version(value),
        cleaned(value) matches Some(version) ==> exists|from: int, to: int, end: int|
            0 <= from < to <= end <= value.len() && version == #[trigger] value.subrange(from, to)
                && alphabet::all_white(value.take(from)) && (forall|i: int|
                to <= i < end ==> alphabet::separator(#[trigger] value[i])) && alphabet::all_white(
                #[trigger] value.skip(end),
            ),
{
    let space = CharClass::Space;
    let marks = CharClass::Separator;
    text::lemma_leading(value, space);
    let from = text::leading(value, space) as int;
    let start = text::trim_start(value);
    text::lemma_trailing(start, space);
    let middle = text::trim(value);
    let end = from + middle.len();
    text::lemma_trailing(middle, marks);
    let version = text::trim_end(middle, marks);
    let to = from + version.len();
    assert(version == value.subrange(from, to));
    assert(alphabet::all_white(value.take(from))) by {
        assert forall|i: int| 0 <= i < from implies alphabet::white(#[trigger] value.take(from)[i]) by {
            assert(space.has(value[i]));
        }
    }
    assert forall|i: int| to <= i < end implies alphabet::separator(#[trigger] value[i]) by {
        assert(middle[i - from] == value[i]);
        assert(marks.has(middle[i - from]));
    }
    assert(alphabet::all_white(value.skip(end))) by {
        let tail = value.skip(end);
        assert forall|i: int| 0 <= i < tail.len() implies alphabet::white(#[trigger] tail[i]) by {
            assert(tail[i] == start[end + i - from]);
            assert(space.has(start[end + i - from]));
        }
    }
    lemma_literal_version(version);
    if is_literal_version(version) {
        let i = choose|i: int| 0 <= i < version.len() && alphabet::digit(#[trigger] version[i]);
        assert(alphabet::digit(value[from + i]));
        assert forall|j: int| 0 <= j < value.len() implies !alphabet::reference(
            #[trigger] value[j],
        ) by {
            if j < from {
                assert(space.has(value[j]));
            } else if j < to {
                assert(version[j - from] == value[j]);
            } else if j >= end {
                assert(value.skip(end)[j - end] == value[j]);
            } else {
                assert(alphabet::separator(value[j]));
            }
        }
    }
    if is_literal_version(value) {
        let i = choose|i: int| 0 <= i < value.len() && alphabet::digit(#[trigger] value[i]);
        assert(from <= i < to) by {
            if i < from {
                assert(space.has(value[i]));
            } else if i >= end {
                assert(value.skip(end)[i - end] == value[i]);
            } else if i >= to {
                assert(alphabet::separator(value[i]));
            }
        }
        assert(version[i - from] == value[i]);
        assert forall|j: int| 0 <= j < version.len() implies !alphabet::reference(
            #[trigger] version[j],
        ) by {
            assert(version[j] == value[from + j]);
        }
    }
}

/// Whether `run` is made of digits, `.` and `_`, but for a `v` or `V` at its start.
pub open spec fn is_number_run(run: Seq<char>) -> bool {
    forall|i: int|
        0 <= i < run.len() ==> alphabet::number(#[trigger] run[i]) || (i == 0 && alphabet::vee(
            run[i],
        ))
}

/// A number is the longest run of digits, `.` and `_`, with or without a `v` before it.
pub proof fn law_number_is_longest(run: Seq<char>, rest: Seq<char>)
    requires
        is_number_run(run),
        rest.len() > 0 ==> !alphabet::number(rest[0]),
        run.len() == 0 && rest.len() > 0 ==> !alphabet::vee(rest[0]),
    ensures
        number_len(run + rest) == run.len(),
{
    let s = run + rest;
    let class = CharClass::Number;
    if run.len() > 0 {
        assert(s[0] == run[0]);
        assert(alphabet::number(run[0]) || alphabet::vee(run[0]));
        let v: int = if alphabet::vee(run[0]) {
            1
        } else {
            0
        };
        let digits = run.skip(v);
        assert forall|i: int| 0 <= i < digits.len() implies class.has(#[trigger] digits[i]) by {
            assert(digits[i] == run[v + i]);
            assert(alphabet::number(run[v + i]) || (v + i == 0 && alphabet::vee(run[v + i])));
        }
        text::law_runs_are_longest(digits, rest, class);
        assert(s.skip(v) == digits + rest);
    } else {
        assert(s == rest);
        assert(s.skip(0) == run + rest);
        text::law_runs_are_longest(run, rest, class);
    }
}

/// Of a `package` statement the number behind the name is read, if a `;`, a `{` or the
/// end of the line comes next.
pub proof fn law_package_statement(
    gap: Seq<char>,
    name: Seq<char>,
    space: Seq<char>,
    literal: Seq<char>,
    blank: Seq<char>,
    rest: Seq<char>,
)
    requires
        gap.len() > 0,
        alphabet::all_white(gap),
        name.len() > 0,
        forall|i: int| 0 <= i < name.len() ==> alphabet::qualified(#[trigger] name[i]),
        alphabet::all_white(space),
        space.len() == 0 && literal.len() > 0 ==> !alphabet::qualified(literal[0]),
        literal.len() > 0,
        is_number_run(literal),
        alphabet::all_white(blank),
        rest.len() > 0 ==> !alphabet::white(rest[0]),
        blank.len() == 0 && rest.len() > 0 ==> !alphabet::number(rest[0]),
    ensures
        package_version("package"@ + gap + name + space + literal + blank + rest) == (if rest.len()
            == 0 || rest[0] == ';' || rest[0] == '{' {
            cleaned(literal)
        } else {
            None
        }),
{
    let end = blank + rest;
    let s = literal + end;
    let tail = space + s;
    assert("package"@ + gap + name + space + literal + blank + rest == "package"@ + (gap + (name
        + tail)));
    assert(alphabet::number(literal[0]) || alphabet::vee(literal[0]));
    assert(s[0] == literal[0]);
    lemma_all_white(gap);
    lemma_all_white(space);
    lemma_all_white(blank);
    assert forall|i: int| 0 <= i < name.len() implies CharClass::Qualified.has(
        #[trigger] name[i],
    ) by {
        assert(alphabet::qualified(name[i]));
    }
    if space.len() > 0 {
        assert(tail[0] == space[0]);
        assert(alphabet::white(space[0]));
    } else {
        assert(tail[0] == literal[0]);
    }
    lemma_package_statement(gap, name, tail);
    lemma_blank(space, s);
    if end.len() > 0 {
        if blank.len() > 0 {
            assert(end[0] == blank[0]);
            assert(alphabet::white(blank[0]));
        } else {
            assert(end[0] == rest[0]);
        }
    }
    law_number_is_longest(literal, end);
    assert(s.take(literal.len() as int) == literal);
    assert(s.skip(literal.len() as int) == end);
    assert(text::trim_start(end) == rest) by {
        if rest.len() > 0 {
            lemma_blank(blank, rest);
        } else {
            assert(end == blank);
            text::law_trimming(blank, rest, rest);
            assert(rest == Seq::<char>::empty());
        }
    }
}

proof fn lemma_all_white(s: Seq<char>)
    requires
        alphabet::all_white(s),
    ensures
        is_blank(s),
{
    assert forall|i: int| 0 <= i < s.len() implies CharClass::Space.has(#[trigger] s[i]) by {
        assert(alphabet::white(s[i]));
    }
}

/// What is no `package` statement with a number behind its name has no version as one: a
/// line that does not start with the word `package`, or without white space behind it, or
/// without a name behind that, or without a number behind the name.
pub proof fn law_other_statements_have_no_package_version(
    line: Seq<char>,
    gap: Seq<char>,
    name: Seq<char>,
    space: Seq<char>,
    rest: Seq<char>,
)
    requires
        alphabet::all_white(gap),
        forall|i: int| 0 <= i < name.len() ==> alphabet::qualified(#[trigger] name[i]),
        alphabet::all_white(space),
        rest.len() > 0 ==> !alphabet::white(rest[0]) && !alphabet::number(rest[0])
            && !alphabet::vee(rest[0]),
    ensures
        !alphabet::stands_at(line, "package"@, 0) ==> package_version(line) is None,
        rest.len() == 0 || !alphabet::white(rest[0]) ==> package_version("package"@ + rest) is None,
        rest.len() == 0 || !alphabet::qualified(rest[0]) ==> package_version(
            "package"@ + gap + rest,
        ) is None,
        gap.len() > 0 && name.len() > 0 && (space.len() > 0 || rest.len() == 0
            || !alphabet::qualified(rest[0])) ==> package_version(
            "package"@ + gap + name + space + rest,
        ) is None,
{
    reveal_strlit("package");
    text::law_occurrence(line, "package"@, 0);
    lemma_all_white(gap);
    lemma_all_white(space);
    let a = "package"@ + rest;
    assert(a.skip(7) == rest);
    let b = "package"@ + gap + rest;
    assert(b.skip(7) == gap + rest);
    if rest.len() == 0 || !alphabet::qualified(rest[0]) {
        lemma_trimmed_gap(gap, rest);
        text::law_runs_are_longest(Seq::<char>::empty(), rest, CharClass::Qualified);
        assert(Seq::<char>::empty() + rest == rest);
    }
    if gap.len() > 0 && name.len() > 0 && (space.len() > 0 || rest.len() == 0
        || !alphabet::qualified(rest[0])) {
        let tail = space + rest;
        assert("package"@ + gap + name + space + rest == "package"@ + (gap + (name + tail)));
        assert forall|i: int| 0 <= i < name.len() implies CharClass::Qualified.has(
            #[trigger] name[i],
        ) by {
            assert(alphabet::qualified(name[i]));
        }
        if space.len() > 0 {
            assert(tail[0] == space[0]);
            assert(alphabet::white(space[0]));
        } else if rest.len() > 0 {
            assert(tail[0] == rest[0]);
        }
        lemma_package_statement(gap, name, tail);
        lemma_trimmed_gap(space, rest);
        let none = Seq::<char>::empty();
        law_number_is_longest(none, rest);
        assert(none + rest == rest);
        assert(rest.take(0) == none);
        law_version_of_a_literal(none);
    }
}

proof fn lemma_trimmed_gap(gap: Seq<char>, rest: Seq<char>)
    requires
        is_blank(gap),
        rest.len() > 0 ==> !alphabet::white(rest[0]),
    ensures
        text::trim_start(gap + rest) == rest,
{
    if rest.len() > 0 {
        lemma_blank(gap, rest);
    } else {
        text::law_runs_are_longest(gap, rest, CharClass::Space);
        assert(text::trim_start(gap + rest) == rest);
    }
}

/// A variable named `VERSION` stands where that word does, not followed by another letter,
/// digit or `_`, behind a `$` or `*` with at most a qualifier between: letters, digits, `_`,
/// `:` and `'` of which the last are `::` or `'`.
pub proof fn law_version_variable(line: Seq<char>, p: int)
    ensures
        version_variable_at(line, p) <==> {
            &&& alphabet::stands_at(line, seq!['V', 'E', 'R', 'S', 'I', 'O', 'N'], p)
            &&& p + 7 == line.len() || !alphabet::word(line[p + 7])
            &&& exists|q: int|
                0 <= q < p && (#[trigger] line[q] == '$' || line[q] == '*') && (forall|i: int|
                    q < i < p ==> alphabet::qualified(#[trigger] line[i])) && (q == p - 1 || line[p
                    - 1] == '\'' || (q < p - 2 && line[p - 1] == ':' && line[p - 2] == ':'))
        },
{
    reveal_strlit("VERSION");
    let word = seq!['V', 'E', 'R', 'S', 'I', 'O', 'N'];
    assert("VERSION"@ == word);
    text::law_occurrence(line, word, p);
    if text::occurs_at(line, "VERSION"@, p) {
        let prefix = line.take(p);
        let class = CharClass::Qualified;
        text::lemma_trailing(prefix, class);
        let rest = text::trim_end(prefix, class);
        let n = rest.len() as int;
        let qualifier = prefix.skip(n);
        assert(qualifier.len() == p - n);
        assert(n < p ==> qualifier[p - n - 1] == line[p - 1]);
        assert(n < p - 1 ==> qualifier[p - n - 2] == line[p - 2]);
        if ends_in_sigil(prefix) {
            let q = n - 1;
            assert(line[q] == rest.last());
            assert forall|i: int| q < i < p implies alphabet::qualified(#[trigger] line[i]) by {
                assert(prefix[i] == line[i]);
                assert(class.has(prefix[i]));
            }
        }
        if exists|q: int|
            0 <= q < p && (#[trigger] line[q] == '$' || line[q] == '*') && (forall|i: int|
                q < i < p ==> alphabet::qualified(#[trigger] line[i])) && (q == p - 1 || line[p - 1]
                == '\'' || (q < p - 2 && line[p - 1] == ':' && line[p - 2] == ':')) {
            let q = choose|q: int|
                0 <= q < p && (#[trigger] line[q] == '$' || line[q] == '*') && (forall|i: int|
                    q < i < p ==> alphabet::qualified(#[trigger] line[i])) && (q == p - 1 || line[p
                    - 1] == '\'' || (q < p - 2 && line[p - 1] == ':' && line[p - 2] == ':'));
            assert forall|i: int| prefix.len() - (p - 1 - q) <= i < prefix.len() implies class.has(
                #[trigger] prefix[i],
            ) by {
                assert(alphabet::qualified(line[i]));
            }
            assert(prefix[q] == line[q]);
            text::lemma_trailing_is(prefix, class, p - 1 - q);
            assert(n == q + 1);
            assert(rest.last() == line[q]);
        }
    }
}

/// A `=` assigns unless it is followed by `=`, `~` or `>`, or preceded by `!`, `=`, a single
/// `<` or a single `>`.
pub proof fn law_assignment(before: Seq<char>, after: Seq<char>)
    ensures
        ({
            let n = before.len() as int;
            is_assignment(before + seq!['='] + after, n) == {
                &&& after.len() > 0 ==> after[0] != '=' && after[0] != '~' && after[0] != '>'
                &&& n > 0 ==> before[n - 1] != '!' && before[n - 1] != '='
                &&& n == 1 ==> before[0] != '<' && before[0] != '>'
                &&& n > 1 && before[n - 1] == '<' ==> before[n - 2] == '<'
                &&& n > 1 && before[n - 1] == '>' ==> before[n - 2] == '>'
            }
        }),
{
    let s = before + seq!['='] + after;
    let n = before.len() as int;
    assert(s[n] == '=');
    if after.len() > 0 {
        assert(s[n + 1] == after[0]);
    }
    if n > 0 {
        assert(s[n - 1] == before[n - 1]);
    }
    if n > 1 {
        assert(s[n - 2] == before[n - 2]);
    }
}

/// The assignment that is found is the first one, if no `;` or `#` comes before it.
pub proof fn law_first_assignment(s: Seq<char>, i: int)
    ensures
        assignment_from(s, 0) == Some(i) <==> {
            &&& 0 <= i < s.len()
            &&& s[i] == '='
            &&& is_assignment(s, i)
            &&& forall|j: int|
                0 <= j < i ==> #[trigger] s[j] != ';' && s[j] != '#' && !is_assignment(s, j)
        },
{
    lemma_first_assignment(s, 0, i);
}

proof fn lemma_first_assignment(s: Seq<char>, from: int, i: int)
    requires
        0 <= from,
    ensures
        assignment_from(s, from) == Some(i) <==> {
            &&& from <= i < s.len()
            &&& is_assignment(s, i)
            &&& forall|j: int|
                from <= j < i ==> #[trigger] s[j] != ';' && s[j] != '#' && !is_assignment(s, j)
        },
    decreases s.len() - from,
{
    if from < s.len() && s[from] != ';' && s[from] != '#' && !is_assignment(s, from) {
        lemma_first_assignment(s, from + 1, i);
    }
}

/// How deep text is in brackets: none are open at its start, an opening bracket opens one,
/// and a closing bracket closes one if any is open.
pub proof fn law_depth(s: Seq<char>, c: char, more: Seq<char>)
    ensures
        depth_at(more, 0) == 0,
        ({
            let before = depth_at(s, s.len() as int);
            let after = depth_at(s + seq![c] + more, (s.len() + 1) as int);
            &&& alphabet::opening(c) ==> after == before + 1
            &&& alphabet::closing(c) && before > 0 ==> after == before - 1
            &&& alphabet::closing(c) && before == 0 ==> after == 0
            &&& !alphabet::opening(c) && !alphabet::closing(c) ==> after == before
        }),
{
    let n = s.len() as int;
    let all = s + seq![c] + more;
    assert(all == s + (seq![c] + more));
    lemma_depth_of_extension(s, seq![c] + more, n);
    assert(all[n] == c);
    assert(depth_at(all, n + 1) == depth_after(depth_at(all, n), all[n]));
}

/// Whether a value that starts with `head` is decided by what follows `head`: no quote, no
/// bare number and no `;` outside brackets stands in it.
pub open spec fn is_undecided(head: Seq<char>) -> bool {
    &&& head.len() > 0 ==> !alphabet::white(head[0]) && !alphabet::digit(head[0])
    &&& head.len() > 1 && alphabet::vee(head[0]) ==> !alphabet::digit(head[1])
    &&& forall|i: int| 0 <= i < head.len() ==> !alphabet::quote(#[trigger] head[i])
    &&& forall|i: int| 0 <= i < head.len() && #[trigger] head[i] == ';' ==> depth_at(head, i) > 0
}

/// A bare number is the value that is assigned, whatever follows it.
pub proof fn law_bare_value(space: Seq<char>, literal: Seq<char>, rest: Seq<char>)
    requires
        alphabet::all_white(space),
        is_number_run(literal),
        literal.len() > 0,
        alphabet::digit(literal[0]) || (literal.len() > 1 && alphabet::vee(literal[0])
            && alphabet::digit(literal[1])),
        rest.len() > 0 ==> !alphabet::number(rest[0]),
    ensures
        assigned_value(space + literal + rest) == cleaned(literal),
{
    let value = literal + rest;
    assert(space + literal + rest == space + value);
    assert(value[0] == literal[0]);
    lemma_all_white(space);
    lemma_blank(space, value);
    law_number_is_longest(literal, rest);
    if literal.len() > 1 {
        assert(value[1] == literal[1]);
    }
    assert(value.take(literal.len() as int) == literal);
}

/// The first quoted string is the value that is assigned, if no bare number and no `;`
/// outside brackets comes before it.
pub proof fn law_quoted_value(
    space: Seq<char>,
    head: Seq<char>,
    quote: char,
    inner: Seq<char>,
    rest: Seq<char>,
)
    requires
        alphabet::all_white(space),
        is_undecided(head),
        alphabet::quote(quote),
        forall|i: int| 0 <= i < inner.len() ==> #[trigger] inner[i] != quote,
    ensures
        assigned_value(space + head + seq![quote] + inner + seq![quote] + rest) == cleaned(inner),
{
    let string = seq![quote] + inner + seq![quote] + rest;
    let value = head + string;
    assert(space + head + seq![quote] + inner + seq![quote] + rest == space + value);
    assert(string[0] == quote);
    lemma_undecided(space, head, string);
    let open = head.len() as int;
    assert(value[open] == quote);
    lemma_quote_is(value, 0, open);
    let tail = value.skip(open + 1);
    assert(tail == inner + seq![quote] + rest);
    let n = inner.len() as int;
    assert forall|i: int| 0 <= i < n implies CharClass::Except(quote).has(#[trigger] tail[i]) by {
        assert(tail[i] == inner[i]);
    }
    assert(tail[n] == quote);
    text::lemma_leading_is(tail, CharClass::Except(quote), n);
    assert(tail.take(n) == inner);
}

/// Nothing is assigned that could be read if the text, or the statement, ends before any
/// quoted string, or if the string does.
pub proof fn law_no_value(
    space: Seq<char>,
    head: Seq<char>,
    quote: char,
    inner: Seq<char>,
    rest: Seq<char>,
)
    requires
        alphabet::all_white(space),
        is_undecided(head),
        alphabet::quote(quote),
        forall|i: int| 0 <= i < inner.len() ==> #[trigger] inner[i] != quote,
    ensures
        assigned_value(space + head) is None,
        depth_at(head, head.len() as int) == 0 ==> assigned_value(
            space + head + seq![';'] + rest,
        ) is None,
        assigned_value(space + head + seq![quote] + inner) is None,
{
    let n = head.len() as int;
    let none = Seq::<char>::empty();
    lemma_undecided(space, head, none);
    assert(head + none == head);
    lemma_no_quote(head, 0, n);
    if depth_at(head, n) == 0 {
        let more = seq![';'] + rest;
        assert(space + head + seq![';'] + rest == space + (head + more));
        assert(more[0] == ';');
        lemma_undecided(space, head, more);
        let value = head + more;
        assert(value[n] == ';');
        lemma_depth_of_extension(head, more, n);
        assert(ends_at(value, n));
        lemma_no_quote(value, 0, n);
    }
    let string = seq![quote] + inner;
    let value = head + string;
    assert(space + head + seq![quote] + inner == space + value);
    assert(string[0] == quote);
    lemma_undecided(space, head, string);
    assert(value[n] == quote);
    lemma_quote_is(value, 0, n);
    assert(value.skip(n + 1) == inner);
    text::law_runs_are_longest(inner, none, CharClass::Except(quote));
    assert(inner + none == inner);
}

proof fn lemma_undecided(space: Seq<char>, head: Seq<char>, more: Seq<char>)
    requires
        alphabet::all_white(space),
        is_undecided(head),
        more.len() > 0 ==> alphabet::quote(more[0]) || more[0] == ';',
    ensures
        ({
            let value = head + more;
            &&& text::trim_start(space + value) == value
            &&& !starts_with_number(value)
            &&& forall|i: int| 0 <= i < head.len() ==> !is_quote(#[trigger] value[i])
            &&& forall|i: int| 0 <= i < head.len() ==> !#[trigger] ends_at(value, i)
        }),
        space + head + more == space + (head + more),
{
    let value = head + more;
    assert(space + head + more == space + value);
    lemma_all_white(space);
    if head.len() > 0 {
        assert(value[0] == head[0]);
        if head.len() > 1 {
            assert(value[1] == head[1]);
        } else if more.len() > 0 {
            assert(value[1] == more[0]);
        }
    } else if more.len() > 0 {
        assert(value[0] == more[0]);
    }
    lemma_trimmed_gap(space, value);
    assert forall|i: int| 0 <= i < head.len() implies !is_quote(#[trigger] value[i]) by {
        assert(value[i] == head[i]);
        assert(!alphabet::quote(head[i]));
    }
    assert forall|i: int| 0 <= i < head.len() implies !#[trigger] ends_at(value, i) by {
        assert(value[i] == head[i]);
        lemma_depth_of_extension(head, more, i);
    }
}

/// What stands behind the `=` that follows a variable `VERSION` is what is assigned to it;
/// where there is no such variable, or no such `=`, nothing is.
pub proof fn law_assigned_to_variable(before: Seq<char>, gap: Seq<char>, rhs: Seq<char>)
    ensures
        ({
            let line = before + "VERSION"@ + gap + seq!['='] + rhs;
            let p = before.len() as int;
            assignment_from(gap + seq!['='] + rhs, 0) == Some(gap.len() as int) ==> version_at(
                line,
                p,
            ) == (if version_variable_at(line, p) {
                assigned_value(rhs)
            } else {
                None
            })
        }),
        ({
            let line = before + "VERSION"@ + gap;
            assignment_from(gap, 0) is None ==> version_at(line, before.len() as int) is None
        }),
        forall|line: Seq<char>, p: int|
            !version_variable_at(line, p) ==> #[trigger] version_at(line, p) is None,
{
    reveal_strlit("VERSION");
    let p = before.len() as int;
    let tail = gap + seq!['='] + rhs;
    let line = before + "VERSION"@ + gap + seq!['='] + rhs;
    assert(line.skip(p + 7) == tail);
    assert(line.skip(p + 7 + gap.len() + 1) == rhs);
    let short = before + "VERSION"@ + gap;
    assert(short.skip(p + 7) == gap);
}

/// The first variable of a line that a version is assigned to gives the version.
pub proof fn law_first_variable_wins(line: Seq<char>)
    ensures
        match assigned_from(line, 0) {
            Some(version) => exists|p: int|
                0 <= p < line.len() && #[trigger] version_at(line, p) == Some(version) && (forall|
                    j: int,
                |
                    0 <= j < p ==> #[trigger] version_at(line, j) is None),
            None => forall|p: int| 0 <= p < line.len() ==> #[trigger] version_at(line, p) is None,
        },
{
    lemma_first_variable_from(line, 0);
}

proof fn lemma_first_variable_from(line: Seq<char>, from: int)
    requires
        0 <= from,
    ensures
        match assigned_from(line, from) {
            Some(version) => exists|p: int|
                from <= p < line.len() && #[trigger] version_at(line, p) == Some(version) && (
                forall|j: int| from <= j < p ==> #[trigger] version_at(line, j) is None),
            None => forall|p: int| from <= p < line.len() ==> #[trigger] version_at(line, p) is None,
        },
    decreases line.len() - from,
{
    if from < line.len() && version_at(line, from) is None {
        lemma_first_variable_from(line, from + 1);
        if let Some(version) = assigned_from(line, from) {
            let p = choose|p: int|
                from + 1 <= p < line.len() && #[trigger] version_at(line, p) == Some(version) && (
                forall|j: int| from + 1 <= j < p ==> #[trigger] version_at(line, j) is None);
            assert(version_at(line, p) == Some(version));
        }
    }
}

/// Which lines open and close POD, end the program text, and are comments.
pub proof fn law_line_marks(space: Seq<char>, line: Seq<char>, after: Seq<char>)
    requires
        alphabet::all_white(space),
        alphabet::all_white(after),
    ensures
        opens_pod(line) <==> line.len() > 1 && line[0] == '=' && alphabet::letter(line[1]),
        closes_pod(line) <==> line.len() > 3 && line[0] == '=' && line[1] == 'c' && line[2] == 'u'
            && line[3] == 't',
        line.len() > 0 && !alphabet::white(line.last()) ==> (ends_program(line + after) <==> line
            == "__END__"@ || line == "__DATA__"@),
        !ends_program(after),
        line.len() > 0 && !alphabet::white(line[0]) ==> (is_comment(space + line) <==> line[0]
            == '#'),
        !is_comment(space),
{
    reveal_strlit("=cut");
    reveal_strlit("__END__");
    reveal_strlit("__DATA__");
    text::law_occurrence(line, "=cut"@, 0);
    let none = Seq::<char>::empty();
    let cut = "=cut"@;
    if alphabet::stands_at(line, cut, 0) {
        assert(line[0] == cut[0] && line[1] == cut[1] && line[2] == cut[2] && line[3] == cut[3]);
    }
    if line.len() > 3 && line[0] == '=' && line[1] == 'c' && line[2] == 'u' && line[3] == 't' {
        assert forall|k: int| 0 <= k < cut.len() implies line[0 + k] == #[trigger] cut[k] by {
            assert(k == 0 || k == 1 || k == 2 || k == 3);
        }
    }
    lemma_all_white(space);
    lemma_all_white(after);
    if line.len() > 0 && !alphabet::white(line.last()) {
        text::law_runs_are_longest(after, line, CharClass::Space);
        assert(text::trim_end(line + after, CharClass::Space) == line);
    }
    text::law_trimming(space, none, after);
    if line.len() > 0 && !alphabet::white(line[0]) {
        lemma_blank(space, line);
    }
    text::law_trimming(space, none, none);
}

/// A line has the version of its `package` statement, and else the one that it assigns.
pub proof fn law_package_comes_before_assignment(space: Seq<char>, code: Seq<char>)
    requires
        alphabet::all_white(space),
        code.len() > 0 ==> !alphabet::white(code[0]),
    ensures
        package_version(code) is Some ==> line_version(space + code) == package_version(code),
        package_version(code) is None ==> line_version(space + code) == assigned_from(
            space + code,
            0,
        ),
{
    lemma_all_white(space);
    lemma_trimmed_gap(space, code);
}

/// A number is read as a version if a `;`, a `{` or the end of the line comes next.
pub proof fn law_numeric_version(literal: Seq<char>, blank: Seq<char>, rest: Seq<char>)
    requires
        is_number_run(literal),
        alphabet::all_white(blank),
        rest.len() > 0 ==> !alphabet::white(rest[0]),
        blank.len() == 0 && rest.len() > 0 ==> !alphabet::number(rest[0]),
        literal.len() == 0 && blank.len() == 0 && rest.len() > 0 ==> !alphabet::vee(rest[0]),
    ensures
        numeric_version(literal + blank + rest) == (if rest.len() == 0 || rest[0] == ';' || rest[0]
            == '{' {
            cleaned(literal)
        } else {
            None
        }),
{
    let end = blank + rest;
    let s = literal + end;
    assert(literal + blank + rest == s);
    if end.len() > 0 {
        if blank.len() > 0 {
            assert(end[0] == blank[0]);
            assert(alphabet::white(blank[0]));
        } else {
            assert(end[0] == rest[0]);
        }
    }
    law_number_is_longest(literal, end);
    assert(s.take(literal.len() as int) == literal);
    assert(s.skip(literal.len() as int) == end);
    lemma_all_white(blank);
    lemma_trimmed_gap(blank, rest);
}

} // verus!
