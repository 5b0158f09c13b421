//! Text as sequences of characters: character classes, trimming, searching and
//! splitting into lines.

use crate::alphabet;
use crate::outside;
use vstd::prelude::*;
use vstd::slice::slice_subrange;

verus! {

/// An ASCII digit.
pub open spec fn is_digit(c: char) -> bool {
    '0' <= c <= '9'
}

/// An ASCII letter.
pub open spec fn is_letter(c: char) -> bool {
    'a' <= c <= 'z' || 'A' <= c <= 'Z'
}

/// A character of a Perl identifier: an ASCII letter or digit, or `_`.
pub open spec fn is_word(c: char) -> bool {
    is_letter(c) || is_digit(c) || c == '_'
}

/// A set of characters that text is scanned for.
#[derive(Clone, Copy)]
pub enum CharClass {
    /// Unicode white space.
    Space,
    /// What a bare version literal is made of: ASCII digits, `.` and `_`.
    Number,
    /// What a qualified Perl name is made of: identifier characters, `:` and `'`.
    Qualified,
    /// The characters dropped from the end of a version: `.` and `_`.
    Separator,
    /// Everything but one character.
    Except(char),
}

impl CharClass {
    /// Whether `c` belongs to the class.
    pub open spec fn has(self, c: char) -> bool {
        match self {
            CharClass::Space => outside::is_white_space(c),
            CharClass::Number => is_digit(c) || c == '.' || c == '_',
            CharClass::Qualified => is_word(c) || c == ':' || c == '\'',
            CharClass::Separator => c == '.' || c == '_',
            CharClass::Except(x) => c != x,
        }
    }

    /// Whether `c` belongs to the class.
    pub fn contains(self, c: char) -> (b: bool)
        ensures
            b == self.has(c),
    {
        match self {
            CharClass::Space => c.is_whitespace(),
            CharClass::Number => digit(c) || c == '.' || c == '_',
            CharClass::Qualified => word(c) || c == ':' || c == '\'',
            CharClass::Separator => c == '.' || c == '_',
            CharClass::Except(x) => c != x,
        }
    }
}

/// Whether `c` is an ASCII digit.
pub fn digit(c: char) -> (b: bool)
    ensures
        b == is_digit(c),
{
    '0' <= c && c <= '9'
}

/// Whether `c` is an ASCII letter.
pub fn letter(c: char) -> (b: bool)
    ensures
        b == is_letter(c),
{
    ('a' <= c && c <= 'z') || ('A' <= c && c <= 'Z')
}

/// Whether `c` is an identifier character.
pub fn word(c: char) -> (b: bool)
    ensures
        b == is_word(c),
{
    letter(c) || digit(c) || c == '_'
}

/// How many characters at the start of `s` belong to `class`.
pub open spec fn leading(s: Seq<char>, class: CharClass) -> nat
    decreases s.len(),
{
    if s.len() == 0 || !class.has(s[0]) {
        0
    } else {
        1 + leading(s.drop_first(), class)
    }
}

/// How many characters at the end of `s` belong to `class`.
pub open spec fn trailing(s: Seq<char>, class: CharClass) -> nat
    decreases s.len(),
{
    if s.len() == 0 || !class.has(s.last()) {
        0
    } else {
        1 + trailing(s.drop_last(), class)
    }
}

/// The run at the start of `s` is the longest one: everything in it belongs to the
/// class, and what follows it, if anything, does not.
pub proof fn lemma_leading(s: Seq<char>, class: CharClass)
    ensures
        leading(s, class) <= s.len(),
        forall|i: int| 0 <= i < leading(s, class) ==> class.has(#[trigger] s[i]),
        leading(s, class) < s.len() ==> !class.has(s[leading(s, class) as int]),
    decreases s.len(),
{
    if s.len() > 0 && class.has(s[0]) {
        let rest = s.drop_first();
        lemma_leading(rest, class);
        assert forall|i: int| 0 <= i < leading(s, class) implies class.has(#[trigger] s[i]) by {
            if i > 0 {
                assert(rest[i - 1] == s[i]);
            }
        }
    }
}

/// The run at the end of `s` is the longest one.
pub proof fn lemma_trailing(s: Seq<char>, class: CharClass)
    ensures
        trailing(s, class) <= s.len(),
        forall|i: int| s.len() - trailing(s, class) <= i < s.len() ==> class.has(#[trigger] s[i]),
        trailing(s, class) < s.len() ==> !class.has(s[s.len() - trailing(s, class) - 1]),
    decreases s.len(),
{
    if s.len() > 0 && class.has(s.last()) {
        let rest = s.drop_last();
        lemma_trailing(rest, class);
        assert forall|i: int| s.len() - trailing(s, class) <= i < s.len() implies class.has(
            #[trigger] s[i],
        ) by {
            if i < s.len() - 1 {
                assert(rest[i] == s[i]);
            }
        }
    }
}

/// A run at the start of `s` that cannot be extended is the longest one.
pub proof fn lemma_leading_is(s: Seq<char>, class: CharClass, k: int)
    requires
        0 <= k <= s.len(),
        forall|i: int| 0 <= i < k ==> class.has(#[trigger] s[i]),
        k < s.len() ==> !class.has(s[k]),
    ensures
        leading(s, class) == k,
{
    lemma_leading(s, class);
    let n = leading(s, class) as int;
    if n < k {
        assert(class.has(s[n]));
    } else if k < n {
        assert(class.has(s[k]));
    }
}

/// A run at the end of `s` that cannot be extended is the longest one.
pub proof fn lemma_trailing_is(s: Seq<char>, class: CharClass, k: int)
    requires
        0 <= k <= s.len(),
        forall|i: int| s.len() - k <= i < s.len() ==> class.has(#[trigger] s[i]),
        k < s.len() ==> !class.has(s[s.len() - k - 1]),
    ensures
        trailing(s, class) == k,
{
    lemma_trailing(s, class);
    let n = trailing(s, class) as int;
    if n < k {
        assert(class.has(s[s.len() - n - 1]));
    } else if k < n {
        assert(class.has(s[s.len() - k - 1]));
    }
}

/// Counts the characters at the start of `s` that belong to `class`.
pub fn count_leading(s: &[char], class: CharClass) -> (n: usize)
    ensures
        n == leading(s@, class),
        n <= s@.len(),
{
    let mut n: usize = 0;
    while n < s.len() && class.contains(s[n])
        invariant
            n <= s@.len(),
            forall|i: int| 0 <= i < n ==> class.has(#[trigger] s@[i]),
        decreases s@.len() - n,
    {
        n += 1;
    }
    proof {
        lemma_leading_is(s@, class, n as int);
    }
    n
}

/// Counts the characters at the end of `s` that belong to `class`.
pub fn count_trailing(s: &[char], class: CharClass) -> (n: usize)
    ensures
        n == trailing(s@, class),
        n <= s@.len(),
{
    let mut n: usize = 0;
    while n < s.len() && class.contains(s[s.len() - n - 1])
        invariant
            n <= s@.len(),
            forall|i: int| s@.len() - n <= i < s@.len() ==> class.has(#[trigger] s@[i]),
        decreases s@.len() - n,
    {
        n += 1;
    }
    proof {
        lemma_trailing_is(s@, class, n as int);
    }
    n
}

/// `s` without the white space at its start.
pub open spec fn trim_start(s: Seq<char>) -> Seq<char> {
    s.skip(leading(s, CharClass::Space) as int)
}

/// `s` without the characters of `class` at its end.
pub open spec fn trim_end(s: Seq<char>, class: CharClass) -> Seq<char> {
    s.take(s.len() - trailing(s, class))
}

/// `s` without the white space at either end.
pub open spec fn trim(s: Seq<char>) -> Seq<char> {
    trim_end(trim_start(s), CharClass::Space)
}

/// Drops the white space at the start of `s`.
pub fn trimmed_start(s: &[char]) -> (r: &[char])
    ensures
        r@ == trim_start(s@),
{
    let n = count_leading(s, CharClass::Space);
    slice_subrange(s, n, s.len())
}

/// Drops the characters of `class` at the end of `s`.
pub fn trimmed_end(s: &[char], class: CharClass) -> (r: &[char])
    ensures
        r@ == trim_end(s@, class),
{
    let n = count_trailing(s, class);
    slice_subrange(s, 0, s.len() - n)
}

/// Trimmed text neither starts nor ends with white space.
pub proof fn lemma_trimmed_ends(s: Seq<char>)
    ensures
        trim(s).len() > 0 ==> !outside::is_white_space(trim(s)[0]) && !outside::is_white_space(
            trim(s).last(),
        ),
{
    let class = CharClass::Space;
    lemma_leading(s, class);
    let t = trim_start(s);
    lemma_trailing(t, class);
}

/// Whether `word` stands in `s` at position `i`.
pub open spec fn occurs_at(s: Seq<char>, word: Seq<char>, i: int) -> bool {
    0 <= i && i + word.len() <= s.len() && s.subrange(i, i + word.len()) == word
}

/// Whether `s` starts with `word`.
pub open spec fn starts_with(s: Seq<char>, word: Seq<char>) -> bool {
    occurs_at(s, word, 0)
}

/// Whether `word` stands anywhere in `s`.
pub open spec fn contains(s: Seq<char>, word: Seq<char>) -> bool {
    exists|i: int| occurs_at(s, word, i)
}

/// Tells whether `word` stands in `s` at position `i`.
pub fn found_at(s: &[char], word: &str, i: usize) -> (b: bool)
    ensures
        b == occurs_at(s@, word@, i as int),
{
    if i > s.len() {
        return false;
    }
    let mut end: usize = i;
    for c in it: word.chars()
        invariant
            it.seq() == word@,
            i <= end <= s@.len(),
            end == i + it.index(),
            s@.subrange(i as int, end as int) == word@.take(it.index() as int),
    {
        if end == s.len() {
            return false;
        }
        if s[end] != c {
            proof {
                if occurs_at(s@, word@, i as int) {
                    assert(s@.subrange(i as int, i + word@.len())[end - i] == word@[end - i]);
                }
            }
            return false;
        }
        end += 1;
        assert(s@.subrange(i as int, end as int) == s@.subrange(i as int, end - 1).push(c));
        assert(word@.take(it.index() + 1) == word@.take(it.index() as int).push(c));
    }
    assert(word@.take(word@.len() as int) == word@);
    true
}

/// Tells whether `s` is the text `word`.
pub fn is_text(s: &[char], word: &str) -> (b: bool)
    ensures
        b == (s@ == word@),
{
    proof {
        if s@.len() == word@.len() {
            assert(s@.subrange(0, s@.len() as int) == s@);
        }
    }
    s.len() == word.unicode_len() && found_at(s, word, 0)
}

/// Tells whether `word` stands anywhere in `s`.
pub fn found_in(s: &[char], word: &str) -> (b: bool)
    ensures
        b == contains(s@, word@),
{
    let mut i: usize = 0;
    loop
        invariant
            i <= s@.len(),
            forall|j: int| 0 <= j < i ==> !occurs_at(s@, word@, j),
        decreases s@.len() - i,
    {
        if found_at(s, word, i) {
            return true;
        }
        if i == s.len() {
            return false;
        }
        i += 1;
    }
}

/// The characters of a string.
pub fn chars_of(s: &str) -> (v: Vec<char>)
    ensures
        v@ == s@,
{
    let mut v: Vec<char> = Vec::new();
    for c in it: s.chars()
        invariant
            v@ == s@.take(it.index() as int),
            it.seq() == s@,
    {
        v.push(c);
    }
    v
}

/// The string made of the characters of `s`.
pub fn string_of(s: &[char]) -> (text: String)
    ensures
        text@ == s@,
{
    let mut text = String::new();
    let mut i: usize = 0;
    while i < s.len()
        invariant
            i <= s@.len(),
            text@ == s@.take(i as int),
        decreases s@.len() - i,
    {
        text.push(s[i]);
        i += 1;
    }
    text
}

/// The items of `list` one after the other, with `separator` between any two.
pub open spec fn join<T>(list: Seq<Seq<T>>, separator: Seq<T>) -> Seq<T>
    decreases list.len(),
{
    if list.len() == 0 {
        Seq::empty()
    } else if list.len() == 1 {
        list[0]
    } else {
        list[0] + separator + join(list.drop_first(), separator)
    }
}

/// A line without the carriage return that is part of its line ending.
pub open spec fn without_return(line: Seq<char>) -> Seq<char> {
    if line.len() > 0 && line.last() == '\r' {
        line.drop_last()
    } else {
        line
    }
}

/// The lines of `s`: a line ends at a line feed or at a carriage return and a line
/// feed, neither of which is part of it, or at the end of the text.
pub open spec fn lines(s: Seq<char>) -> Seq<Seq<char>>
    decreases s.len(),
{
    let n = leading(s, CharClass::Except('\n')) as int;
    if s.len() == 0 {
        Seq::empty()
    } else if n >= s.len() {
        seq![s]
    } else {
        seq![without_return(s.take(n))] + lines(s.skip(n + 1))
    }
}

/// Splits non-empty text into its first line and what follows it.
pub fn split_line(s: &[char]) -> (r: (&[char], &[char]))
    requires
        s@.len() > 0,
    ensures
        lines(s@) == seq![r.0@] + lines(r.1@),
        r.1@.len() < s@.len(),
{
    let n = count_leading(s, CharClass::Except('\n'));
    if n == s.len() {
        let rest = slice_subrange(s, n, n);
        assert(lines(s@) == seq![s@] + lines(rest@));
        (s, rest)
    } else {
        let end = if n > 0 && s[n - 1] == '\r' {
            n - 1
        } else {
            n
        };
        let line = slice_subrange(s, 0, end);
        let rest = slice_subrange(s, n + 1, s.len());
        assert(s@.take(n as int).len() == n);
        assert(line@ == without_return(s@.take(n as int)));
        assert(rest@ == s@.skip(n + 1));
        (line, rest)
    }
}

/// Text that starts with a line and a line feed has that line as its first.
pub proof fn lemma_lines_first(line: Seq<char>, rest: Seq<char>)
    requires
        !line.contains('\n'),
    ensures
        lines(line + seq!['\n'] + rest) == seq![without_return(line)] + lines(rest),
{
    let s = line + seq!['\n'] + rest;
    let n = line.len() as int;
    assert forall|i: int| 0 <= i < n implies CharClass::Except('\n').has(#[trigger] s[i]) by {
        assert(s[i] == line[i]);
        assert(line.contains(line[i]));
    }
    assert(s[n] == '\n');
    lemma_leading_is(s, CharClass::Except('\n'), n);
    assert(s.take(n) == line);
    assert(s.skip(n + 1) == rest);
}

/// The lines of two texts in a row, where the first ends with a line feed, are the
/// lines of the first and then those of the second.
pub proof fn lemma_lines_concat(a: Seq<char>, b: Seq<char>)
    requires
        a.len() == 0 || a.last() == '\n',
    ensures
        lines(a + b) == lines(a) + lines(b),
    decreases a.len(),
{
    if a.len() == 0 {
        assert(a + b == b);
        assert(lines(a) + lines(b) == lines(b));
    } else {
        let class = CharClass::Except('\n');
        lemma_leading(a, class);
        let n = leading(a, class) as int;
        if n == a.len() {
            assert(class.has(a[n - 1]));
        }
        let line = a.take(n);
        let rest = a.skip(n + 1);
        assert(!line.contains('\n')) by {
            if line.contains('\n') {
                let i = choose|i: int| 0 <= i < line.len() && line[i] == '\n';
                assert(class.has(a[i]));
            }
        }
        assert(a == line + seq!['\n'] + rest);
        assert(a + b == line + seq!['\n'] + (rest + b));
        lemma_lines_first(line, rest);
        lemma_lines_first(line, rest + b);
        lemma_lines_concat(rest, b);
        assert(lines(a + b) == lines(a) + lines(b));
    }
}

/// What stands in a part of `s` stands in `s`.
pub proof fn lemma_contains_part(s: Seq<char>, from: int, to: int, word: Seq<char>)
    requires
        0 <= from <= to <= s.len(),
        contains(s.subrange(from, to), word),
    ensures
        contains(s, word),
{
    let part = s.subrange(from, to);
    let i = choose|i: int| occurs_at(part, word, i);
    assert(s.subrange(from + i, from + i + word.len()) == part.subrange(i, i + word.len()));
    assert(occurs_at(s, word, from + i));
}

/// What stands in a line of `s` stands in `s`.
pub proof fn lemma_contains_line(s: Seq<char>, i: int, word: Seq<char>)
    requires
        0 <= i < lines(s).len(),
        contains(lines(s)[i], word),
    ensures
        contains(s, word),
    decreases s.len(),
{
    let n = leading(s, CharClass::Except('\n')) as int;
    if n < s.len() {
        let rest = s.skip(n + 1);
        if i == 0 {
            let line = without_return(s.take(n));
            assert(line == s.subrange(0, line.len() as int));
            lemma_contains_part(s, 0, line.len() as int, word);
        } else {
            lemma_contains_line(rest, i - 1, word);
            assert(rest == s.subrange(n + 1, s.len() as int));
            lemma_contains_part(s, n + 1, s.len() as int, word);
        }
    }
}

/// The parts of `s` between the places where `mark` stands.
pub open spec fn split<T>(s: Seq<T>, mark: T) -> Seq<Seq<T>>
    decreases s.len(),
{
    if s.len() == 0 {
        seq![s]
    } else if s[0] == mark {
        seq![Seq::empty()] + split(s.drop_first(), mark)
    } else {
        let parts = split(s.drop_first(), mark);
        parts.update(0, seq![s[0]] + parts[0])
    }
}

proof fn lemma_split_first<T>(item: Seq<T>, rest: Seq<T>, mark: T)
    requires
        !item.contains(mark),
    ensures
        split(item, mark) == seq![item],
        split(item + seq![mark] + rest, mark) == seq![item] + split(rest, mark),
    decreases item.len(),
{
    let s = item + seq![mark] + rest;
    if item.len() == 0 {
        assert(item == Seq::<T>::empty());
        assert(s[0] == mark);
        assert(s.drop_first() == rest);
    } else {
        let tail = item.drop_first();
        assert(item.contains(item[0]));
        assert(!tail.contains(mark)) by {
            if tail.contains(mark) {
                let i = choose|i: int| 0 <= i < tail.len() && tail[i] == mark;
                assert(item[i + 1] == mark);
            }
        }
        lemma_split_first(tail, rest, mark);
        assert(s.drop_first() == tail + seq![mark] + rest);
        assert(seq![item[0]] + tail == item);
        assert(split(s, mark) == seq![item] + split(rest, mark));
        assert(split(item, mark) == seq![item]);
    }
}

/// Splitting undoes joining, if the mark stands in none of the items.
pub proof fn lemma_split_join<T>(list: Seq<Seq<T>>, mark: T)
    requires
        list.len() > 0,
        forall|i: int| 0 <= i < list.len() ==> !(#[trigger] list[i]).contains(mark),
    ensures
        split(join(list, seq![mark]), mark) == list,
    decreases list.len(),
{
    let first = list[0];
    let rest = list.drop_first();
    lemma_split_first(first, join(rest, seq![mark]), mark);
    if list.len() > 1 {
        assert forall|i: int| 0 <= i < rest.len() implies !(#[trigger] rest[i]).contains(mark) by {
            assert(rest[i] == list[i + 1]);
        }
        lemma_split_join(rest, mark);
        assert(list == seq![first] + rest);
    } else {
        assert(list == seq![first]);
    }
}

/// Which characters the sets of characters hold.
pub proof fn law_character_classes(c: char, x: char)
    ensures
        is_digit(c) == alphabet::digit(c),
        is_letter(c) == alphabet::letter(c),
        is_word(c) == alphabet::word(c),
        outside::is_white_space(c) == alphabet::white(c),
        CharClass::Space.has(c) == alphabet::white(c),
        CharClass::Number.has(c) == alphabet::number(c),
        CharClass::Qualified.has(c) == alphabet::qualified(c),
        CharClass::Separator.has(c) == alphabet::separator(c),
        CharClass::Except(x).has(c) == (c != x),
        is_digit(c) <==> 0x30 <= c as u32 <= 0x39,
        is_letter(c) <==> 0x41 <= c as u32 <= 0x5a || 0x61 <= c as u32 <= 0x7a,
        is_word(c) <==> 0x30 <= c as u32 <= 0x39 || 0x41 <= c as u32 <= 0x5a || c as u32 == 0x5f
            || 0x61 <= c as u32 <= 0x7a,
{
}

/// Text starts with the longest run of a class that it can be taken to start with, and
/// ends in the longest run that it can be taken to end in.
pub proof fn law_runs_are_longest(run: Seq<char>, rest: Seq<char>, class: CharClass)
    requires
        forall|i: int| 0 <= i < run.len() ==> class.has(#[trigger] run[i]),
    ensures
        rest.len() == 0 || !class.has(rest[0]) ==> leading(run + rest, class) == run.len(),
        rest.len() == 0 || !class.has(rest.last()) ==> trailing(rest + run, class) == run.len(),
{
    let a = run + rest;
    let b = rest + run;
    let n = run.len() as int;
    assert forall|i: int| 0 <= i < n implies class.has(#[trigger] a[i]) by {
        assert(a[i] == run[i]);
    }
    assert forall|i: int| b.len() - n <= i < b.len() implies class.has(#[trigger] b[i]) by {
        assert(b[i] == run[i - rest.len()]);
    }
    if rest.len() == 0 {
        lemma_leading_is(a, class, n);
        lemma_trailing_is(b, class, n);
    } else {
        assert(a[n] == rest[0]);
        assert(b[b.len() - n - 1] == rest.last());
        if !class.has(rest[0]) {
            lemma_leading_is(a, class, n);
        }
        if !class.has(rest.last()) {
            lemma_trailing_is(b, class, n);
        }
    }
}

/// Trimming takes off the white space around text and nothing else.
pub proof fn law_trimming(before: Seq<char>, s: Seq<char>, after: Seq<char>)
    requires
        alphabet::all_white(before),
        alphabet::all_white(after),
        s.len() > 0 ==> !alphabet::white(s[0]) && !alphabet::white(s.last()),
    ensures
        trim(before + s + after) == s,
        s.len() > 0 ==> trim_start(before + s + after) == s + after,
        s.len() > 0 ==> trim_end(before + s + after, CharClass::Space) == before + s,
        trim_start(before) == Seq::<char>::empty(),
        trim_end(after, CharClass::Space) == Seq::<char>::empty(),
{
    let class = CharClass::Space;
    let none = Seq::<char>::empty();
    assert(forall|c: char| #[trigger] class.has(c) == alphabet::white(c));
    law_runs_are_longest(before, none, class);
    law_runs_are_longest(after, none, class);
    assert(before + none == before && none + after == after);
    assert(trim_start(before) == none);
    assert(trim_end(after, class) == none);
    let all = before + s + after;
    if s.len() > 0 {
        law_runs_are_longest(before, s + after, class);
        assert(before + (s + after) == all);
        assert((s + after)[0] == s[0]);
        assert(trim_start(all) == s + after);
        law_runs_are_longest(after, before + s, class);
        assert((before + s) + after == all);
        assert((before + s).last() == s.last());
        assert(trim_end(all, class) == before + s);
        law_runs_are_longest(after, s, class);
        assert(trim(all) == s);
    } else {
        let blank = before + after;
        assert(all == blank);
        assert forall|i: int| 0 <= i < blank.len() implies class.has(#[trigger] blank[i]) by {
            if i < before.len() {
                assert(blank[i] == before[i]);
            } else {
                assert(blank[i] == after[i - before.len()]);
            }
        }
        law_runs_are_longest(blank, none, class);
        assert(blank + none == blank);
        assert(trim_start(all) == none);
        assert(trim(all) == none);
        assert(s == none);
    }
}

/// A word stands at a position if its characters do, one after the other.
pub proof fn law_occurrence(s: Seq<char>, word: Seq<char>, i: int)
    ensures
        occurs_at(s, word, i) == alphabet::stands_at(s, word, i),
        starts_with(s, word) == alphabet::stands_at(s, word, 0),
        contains(s, word) == exists|j: int| #[trigger] alphabet::stands_at(s, word, j),
{
    assert forall|j: int| #[trigger] occurs_at(s, word, j) == alphabet::stands_at(s, word, j) by {
        if 0 <= j && j + word.len() <= s.len() {
            let part = s.subrange(j, j + word.len());
            if part == word {
                assert forall|k: int| 0 <= k < word.len() implies s[j + k] == #[trigger] word[k] by {
                    assert(part[k] == word[k]);
                }
            }
            if alphabet::stands_at(s, word, j) {
                assert forall|k: int| 0 <= k < word.len() implies part[k] == word[k] by {
                    assert(s[j + k] == word[k]);
                }
                assert(part == word);
            }
        }
    }
    if contains(s, word) {
        let j = choose|j: int| occurs_at(s, word, j);
        assert(alphabet::stands_at(s, word, j));
    }
    if exists|j: int| #[trigger] alphabet::stands_at(s, word, j) {
        let j = choose|j: int| #[trigger] alphabet::stands_at(s, word, j);
        assert(occurs_at(s, word, j));
    }
}

/// An item that is added to the end of a list is joined behind a separator.
pub proof fn law_join_grows<T>(list: Seq<Seq<T>>, item: Seq<T>, separator: Seq<T>)
    ensures
        join(Seq::<Seq<T>>::empty(), separator) == Seq::<T>::empty(),
        join(seq![item], separator) == item,
        list.len() > 0 ==> join(list.push(item), separator) == join(list, separator) + separator
            + item,
    decreases list.len(),
{
    if list.len() > 0 {
        let rest = list.drop_first();
        let all = list.push(item);
        assert(all.drop_first() == rest.push(item));
        if rest.len() == 0 {
            assert(rest.push(item) == seq![item]);
            assert(join(all, separator) == list[0] + separator + item);
        } else {
            law_join_grows(rest, item, separator);
            assert(join(all, separator) == join(list, separator) + separator + item);
        }
    }
}

/// A line ends at a line feed, at a carriage return and a line feed, or with the text.
pub proof fn law_lines(line: Seq<char>, rest: Seq<char>)
    requires
        forall|i: int| 0 <= i < line.len() ==> #[trigger] line[i] != '\n',
    ensures
        lines(Seq::<char>::empty()) == Seq::<Seq<char>>::empty(),
        line.len() > 0 ==> lines(line) == seq![line],
        line.len() == 0 || line.last() != '\r' ==> lines(line + seq!['\n'] + rest) == seq![line]
            + lines(rest),
        lines(line + seq!['\r', '\n'] + rest) == seq![line] + lines(rest),
{
    let class = CharClass::Except('\n');
    if line.len() > 0 {
        assert forall|i: int| 0 <= i < line.len() implies class.has(#[trigger] line[i]) by {}
        lemma_leading_is(line, class, line.len() as int);
    }
    assert(!line.contains('\n'));
    lemma_lines_first(line, rest);
    let long = line.push('\r');
    assert(!long.contains('\n')) by {
        if long.contains('\n') {
            let i = choose|i: int| 0 <= i < long.len() && long[i] == '\n';
            if i < line.len() {
                assert(line[i] == '\n');
            }
        }
    }
    lemma_lines_first(long, rest);
    assert(long + seq!['\n'] + rest == line + seq!['\r', '\n'] + rest);
    assert(without_return(long) == line);
}

} // verus!
