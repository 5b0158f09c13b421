//! File paths as the bytes that the operating system sees.

use vstd::prelude::*;
use vstd::slice::slice_subrange;

verus! {

/// The byte `/`.
pub const SLASH: u8 = 0x2f;

/// The byte `.`.
pub const DOT: u8 = 0x2e;

/// A file path: a sequence of bytes in which `/` separates names. The bytes need not
/// be valid UTF-8.
#[derive(Debug)]
pub struct FilePath {
    /// The bytes of the path, as written.
    pub bytes: Vec<u8>,
}

impl View for FilePath {
    type V = Seq<u8>;

    open spec fn view(&self) -> Seq<u8> {
        self.bytes@
    }
}

impl DeepView for FilePath {
    type V = Seq<u8>;

    open spec fn deep_view(&self) -> Seq<u8> {
        self@
    }
}

/// The byte sequences that a list of byte vectors holds.
pub open spec fn byte_views(list: Seq<Vec<u8>>) -> Seq<Seq<u8>> {
    Seq::new(list.len(), |i: int| list[i]@)
}

/// Whether a path starts at the root of the file system.
pub open spec fn is_absolute(path: Seq<u8>) -> bool {
    path.len() > 0 && path[0] == SLASH
}

/// The path `name` as seen from the directory `base`: `name` itself if it is
/// absolute, and otherwise `name` below `base`, with one `/` put between them where
/// `base` is neither empty nor ends in one.
pub open spec fn joined(base: Seq<u8>, name: Seq<u8>) -> Seq<u8> {
    if is_absolute(name) {
        name
    } else if base.len() == 0 || base.last() == SLASH {
        base + name
    } else {
        base + seq![SLASH] + name
    }
}

/// The length of the part of `path` before its first `/`.
pub open spec fn head_len(path: Seq<u8>) -> nat
    decreases path.len(),
{
    if path.len() == 0 || path[0] == SLASH {
        0
    } else {
        1 + head_len(path.drop_first())
    }
}

/// The part of `path` before its first `/`.
pub open spec fn head(path: Seq<u8>) -> Seq<u8> {
    path.take(head_len(path) as int)
}

/// Whether a part of a path names nothing: it is empty, or the `.` that stands for
/// the directory it is in.
pub open spec fn names_nothing(part: Seq<u8>) -> bool {
    part.len() == 0 || part == seq![DOT]
}

/// The names that a path is made of, in order: what stands between its `/`, without
/// the parts that name nothing.
pub open spec fn names(path: Seq<u8>) -> Seq<Seq<u8>>
    decreases path.len(),
{
    if path.len() == 0 {
        Seq::empty()
    } else {
        let n = head_len(path) as int;
        let first = if names_nothing(head(path)) {
            Seq::empty()
        } else {
            seq![head(path)]
        };
        if n >= path.len() {
            first
        } else {
            first + names(path.skip(n + 1))
        }
    }
}

/// Whether two paths are written alike up to repeated `/`, a `/` at the end, and `.`
/// between names. A `.` at the very start counts: `./a` is not `a`.
pub open spec fn same_path(a: Seq<u8>, b: Seq<u8>) -> bool {
    &&& is_absolute(a) == is_absolute(b)
    &&& (head(a) == seq![DOT]) == (head(b) == seq![DOT])
    &&& names(a) == names(b)
}

proof fn lemma_head_len_is(path: Seq<u8>, k: int)
    requires
        0 <= k <= path.len(),
        forall|i: int| 0 <= i < k ==> #[trigger] path[i] != SLASH,
        k < path.len() ==> path[k] == SLASH,
    ensures
        head_len(path) == k,
    decreases k,
{
    if k > 0 {
        let rest = path.drop_first();
        assert forall|i: int| 0 <= i < k - 1 implies #[trigger] rest[i] != SLASH by {
            assert(rest[i] == path[i + 1]);
        }
        lemma_head_len_is(rest, k - 1);
    }
}

/// Compares two byte sequences.
pub fn same_bytes(a: &[u8], b: &[u8]) -> (same: bool)
    ensures
        same == (a@ == b@),
{
    if a.len() != b.len() {
        return false;
    }
    let mut i: usize = 0;
    while i < a.len()
        invariant
            i <= a@.len(),
            a@.len() == b@.len(),
            forall|j: int| 0 <= j < i ==> a@[j] == b@[j],
        decreases a@.len() - i,
    {
        if a[i] != b[i] {
            return false;
        }
        i += 1;
    }
    assert(a@ == b@);
    true
}

/// Counts the bytes of `path` before its first `/`.
fn count_head(path: &[u8]) -> (n: usize)
    ensures
        n == head_len(path@),
        n <= path@.len(),
{
    let mut n: usize = 0;
    while n < path.len() && path[n] != SLASH
        invariant
            n <= path@.len(),
            forall|i: int| 0 <= i < n ==> #[trigger] path@[i] != SLASH,
        decreases path@.len() - n,
    {
        n += 1;
    }
    proof {
        lemma_head_len_is(path@, n as int);
    }
    n
}

/// Tells whether a part of a path is `.`.
fn is_dot(part: &[u8]) -> (b: bool)
    ensures
        b == (part@ == seq![DOT]),
{
    let b = part.len() == 1 && part[0] == DOT;
    assert(b ==> part@ == seq![DOT]);
    b
}

impl FilePath {
    /// The path made of `bytes`.
    pub fn from_bytes(bytes: Vec<u8>) -> (path: Self)
        ensures
            path@ == bytes@,
    {
        FilePath { bytes }
    }

    /// The path that `name` spells in UTF-8.
    pub fn new(name: &str) -> (path: Self)
        ensures
            path@ == vstd::utf8::encode_utf8(name@),
    {
        FilePath { bytes: vstd::slice::slice_to_vec(name.as_bytes()) }
    }

    /// Whether the path has no bytes.
    pub fn is_empty(&self) -> (b: bool)
        ensures
            b == (self@.len() == 0),
    {
        self.bytes.len() == 0
    }

    /// The path `name` as seen from the directory `self`.
    pub fn join(&self, name: &FilePath) -> (path: FilePath)
        ensures
            path@ == joined(self@, name@),
    {
        if name.bytes.len() > 0 && name.bytes[0] == SLASH {
            return name.clone();
        }
        let mut bytes = self.bytes.clone();
        assert(bytes@ == self@);
        if bytes.len() > 0 && bytes[bytes.len() - 1] != SLASH {
            bytes.push(SLASH);
        }
        bytes.extend_from_slice(name.bytes.as_slice());
        assert(bytes@ == joined(self@, name@));
        FilePath { bytes }
    }

    /// The names that the path is made of, in order.
    fn components(&self) -> (parts: Vec<Vec<u8>>)
        ensures
            byte_views(parts@) == names(self@),
    {
        let mut parts: Vec<Vec<u8>> = Vec::new();
        let mut rest: &[u8] = self.bytes.as_slice();
        assert(byte_views(parts@) + names(rest@) == names(self@));
        while rest.len() > 0
            invariant
                byte_views(parts@) + names(rest@) == names(self@),
            decreases rest@.len(),
        {
            let ghost before = rest@;
            let ghost done = byte_views(parts@);
            let n = count_head(rest);
            let part = slice_subrange(rest, 0, n);
            assert(part@ == head(before));
            if !(part.len() == 0 || is_dot(part)) {
                parts.push(vstd::slice::slice_to_vec(part));
                assert(byte_views(parts@) == done.push(head(before)));
            }
            if n == rest.len() {
                rest = slice_subrange(rest, n, n);
                assert(names(rest@) == Seq::<Seq<u8>>::empty());
            } else {
                rest = slice_subrange(rest, n + 1, rest.len());
                assert(rest@ == before.skip(n + 1));
            }
            assert(byte_views(parts@) + names(rest@) == done + names(before));
        }
        assert(names(rest@) == Seq::<Seq<u8>>::empty());
        assert(byte_views(parts@) == names(self@));
        parts
    }

    /// Whether two paths are written alike up to repeated `/`, a `/` at the end, and
    /// `.` between names.
    pub fn is_same_path(&self, other: &FilePath) -> (same: bool)
        ensures
            same == same_path(self@, other@),
    {
        let a = self.bytes.as_slice();
        let b = other.bytes.as_slice();
        let rooted_a = a.len() > 0 && a[0] == SLASH;
        let rooted_b = b.len() > 0 && b[0] == SLASH;
        let dot_a = is_dot(slice_subrange(a, 0, count_head(a)));
        let dot_b = is_dot(slice_subrange(b, 0, count_head(b)));
        if rooted_a != rooted_b || dot_a != dot_b {
            return false;
        }
        let xs = self.components();
        let ys = other.components();
        assert(byte_views(xs@).len() == xs@.len());
        assert(byte_views(ys@).len() == ys@.len());
        if xs.len() != ys.len() {
            return false;
        }
        let mut i: usize = 0;
        while i < xs.len()
            invariant
                i <= xs@.len(),
                xs@.len() == ys@.len(),
                byte_views(xs@) == names(self@),
                byte_views(ys@) == names(other@),
                forall|j: int| 0 <= j < i ==> byte_views(xs@)[j] == byte_views(ys@)[j],
            decreases xs@.len() - i,
        {
            assert(byte_views(xs@)[i as int] == xs@[i as int]@);
            assert(byte_views(ys@)[i as int] == ys@[i as int]@);
            if !same_bytes(xs[i].as_slice(), ys[i].as_slice()) {
                return false;
            }
            i += 1;
        }
        assert(byte_views(xs@) == byte_views(ys@));
        true
    }
}

impl Clone for FilePath {
    fn clone(&self) -> (copy: Self)
        ensures
            copy@ == self@,
    {
        let bytes = self.bytes.clone();
        assert(bytes@ == self@);
        FilePath { bytes }
    }
}

/// Copies a list of paths.
pub fn clone_paths(paths: &Vec<FilePath>) -> (copies: Vec<FilePath>)
    ensures
        copies.deep_view() == paths.deep_view(),
{
    let mut copies: Vec<FilePath> = Vec::new();
    let mut i: usize = 0;
    while i < paths.len()
        invariant
            i <= paths@.len(),
            copies@.len() == i,
            forall|j: int| 0 <= j < i ==> #[trigger] copies@[j]@ == paths@[j]@,
        decreases paths@.len() - i,
    {
        copies.push(paths[i].clone());
        i += 1;
    }
    assert(copies.deep_view() == paths.deep_view());
    copies
}

/// Copies an optional path.
pub fn clone_path(path: &Option<FilePath>) -> (copy: Option<FilePath>)
    ensures
        copy.deep_view() == path.deep_view(),
{
    match path {
        Some(path) => Some(path.clone()),
        None => None,
    }
}

impl PartialEq for FilePath {
    fn eq(&self, other: &Self) -> (same: bool) {
        self.is_same_path(other)
    }
}

impl vstd::std_specs::cmp::PartialEqSpecImpl for FilePath {
    open spec fn obeys_eq_spec() -> bool {
        true
    }

    open spec fn eq_spec(&self, other: &Self) -> bool {
        same_path(self@, other@)
    }
}

impl Eq for FilePath {

}

proof fn lemma_head_len(path: Seq<u8>)
    ensures
        head_len(path) <= path.len(),
        forall|i: int| 0 <= i < head_len(path) ==> #[trigger] path[i] != SLASH,
        head_len(path) < path.len() ==> path[head_len(path) as int] == SLASH,
    decreases path.len(),
{
    if path.len() > 0 && path[0] != SLASH {
        let rest = path.drop_first();
        lemma_head_len(rest);
        assert forall|i: int| 0 <= i < head_len(path) implies #[trigger] path[i] != SLASH by {
            if i > 0 {
                assert(rest[i - 1] == path[i]);
            }
        }
    }
}

/// A single part that names something is all that its path is made of.
pub proof fn lemma_names_single(part: Seq<u8>)
    requires
        !part.contains(SLASH),
        !names_nothing(part),
    ensures
        names(part) == seq![part],
        !is_absolute(part),
{
    assert forall|i: int| 0 <= i < part.len() implies #[trigger] part[i] != SLASH by {
        assert(part.contains(part[i]));
    }
    lemma_head_len_is(part, part.len() as int);
    assert(head(part) == part);
}

/// A `/` between two paths puts their names one after the other.
pub proof fn lemma_names_concat(a: Seq<u8>, b: Seq<u8>)
    ensures
        names(a + seq![SLASH] + b) == names(a) + names(b),
    decreases a.len(),
{
    let s = a + seq![SLASH] + b;
    lemma_head_len(a);
    let n = head_len(a) as int;
    assert forall|i: int| 0 <= i < n implies #[trigger] s[i] != SLASH by {
        assert(s[i] == a[i]);
    }
    assert(s[n] == SLASH);
    lemma_head_len_is(s, n);
    assert(head(s) == head(a));
    if n == a.len() {
        assert(s.skip(n + 1) == b);
        if n == 0 {
            assert(names(a) == Seq::<Seq<u8>>::empty());
            assert(names_nothing(head(s)));
        }
    } else {
        assert(s.skip(n + 1) == a.skip(n + 1) + seq![SLASH] + b);
        lemma_names_concat(a.skip(n + 1), b);
    }
    assert(names(s) == names(a) + names(b));
}

/// Joining a relative path to a directory puts its names below those of the directory
/// and keeps the directory's root; joining an absolute path gives that path.
pub proof fn law_join_appends_names(base: Seq<u8>, name: Seq<u8>)
    ensures
        is_absolute(name) ==> joined(base, name) == name,
        !is_absolute(name) ==> names(joined(base, name)) == names(base) + names(name),
        !is_absolute(name) ==> is_absolute(joined(base, name)) == is_absolute(base),
{
    let empty = Seq::<u8>::empty();
    if !is_absolute(name) {
        if base.len() == 0 {
            assert(base + name == name);
            assert(names(base) + names(name) == names(name));
        } else if base.last() == SLASH {
            let dir = base.drop_last();
            assert(base == dir + seq![SLASH] + empty);
            assert(base + name == dir + seq![SLASH] + name);
            lemma_names_concat(dir, empty);
            lemma_names_concat(dir, name);
            assert(names(empty) == Seq::<Seq<u8>>::empty());
            assert(names(base) == names(dir));
            assert((base + name)[0] == base[0]);
        } else {
            lemma_names_concat(base, name);
            assert((base + seq![SLASH] + name)[0] == base[0]);
        }
    }
}

/// Being the same path is an equivalence.
pub proof fn law_same_path_is_an_equivalence(a: Seq<u8>, b: Seq<u8>, c: Seq<u8>)
    ensures
        same_path(a, a),
        same_path(a, b) ==> same_path(b, a),
        same_path(a, b) && same_path(b, c) ==> same_path(a, c),
{
}

/// A `/` at the end of a path that is not empty, with or without a `.` after it, changes
/// nothing about which path it is.
pub proof fn law_trailing_parts_are_ignored(path: Seq<u8>)
    requires
        path.len() > 0,
    ensures
        same_path(path + seq![SLASH], path),
        same_path(path + seq![SLASH, DOT], path),
{
    let empty = Seq::<u8>::empty();
    let dot = seq![DOT];
    lemma_names_concat(path, empty);
    lemma_names_concat(path, dot);
    assert(path + seq![SLASH] == path + seq![SLASH] + empty);
    assert(path + seq![SLASH, DOT] == path + seq![SLASH] + dot);
    assert(names(empty) == Seq::<Seq<u8>>::empty());
    lemma_head_len_is(dot, 1);
    assert(head(dot) == dot);
    assert(names(dot) == Seq::<Seq<u8>>::empty());
    assert(names(path) + names(empty) == names(path));
    lemma_head_of_extension(path, empty);
    lemma_head_of_extension(path, dot);
}

proof fn lemma_head_of_extension(path: Seq<u8>, more: Seq<u8>)
    ensures
        head(path + seq![SLASH] + more) == head(path),
{
    let s = path + seq![SLASH] + more;
    lemma_head_len(path);
    let n = head_len(path) as int;
    assert forall|i: int| 0 <= i < n implies #[trigger] s[i] != SLASH by {
        assert(s[i] == path[i]);
    }
    assert(s[n] == SLASH);
    lemma_head_len_is(s, n);
    assert(head(s) == head(path));
}

/// The bytes of a path are those that it was made of.
pub proof fn law_path_view(path: FilePath)
    ensures
        path@ == path.bytes@,
        path.deep_view() == path.bytes@,
{
}

/// The byte sequences of a list are those of its items, all of them and in order.
pub proof fn law_byte_views(list: Seq<Vec<u8>>)
    ensures
        byte_views(list).len() == list.len(),
        forall|i: int| 0 <= i < list.len() ==> #[trigger] byte_views(list)[i] == list[i]@,
{
}

/// A path is absolute exactly if its first byte is `/`.
pub proof fn law_absolute_paths(path: Seq<u8>, first: u8)
    ensures
        !is_absolute(Seq::<u8>::empty()),
        is_absolute(seq![first] + path) == (first == 0x2f),
{
    assert((seq![first] + path)[0] == first);
}

/// A relative path is joined to a directory with one `/` between them, whether or not the
/// directory is written with a `/` at its end; an absolute path takes its place.
pub proof fn law_joined_bytes(dir: Seq<u8>, name: Seq<u8>, rest: Seq<u8>)
    requires
        name.len() > 0 ==> name[0] != 0x2f,
    ensures
        joined(Seq::<u8>::empty(), name) == name,
        joined(dir + seq![0x2fu8], name) == dir + seq![0x2fu8] + name,
        dir.len() > 0 && dir.last() != 0x2f ==> joined(dir, name) == dir + seq![0x2fu8] + name,
        joined(dir, seq![0x2fu8] + rest) == seq![0x2fu8] + rest,
{
    assert(Seq::<u8>::empty() + name == name);
    assert((dir + seq![0x2fu8]).last() == 0x2f);
    assert((seq![0x2fu8] + rest)[0] == 0x2f);
}

/// The names of a path are what stands between its `/`, without what is empty or `.`.
pub proof fn law_names_of_paths(name: Seq<u8>, a: Seq<u8>, b: Seq<u8>)
    requires
        name.len() > 0,
        forall|i: int| 0 <= i < name.len() ==> #[trigger] name[i] != 0x2f,
    ensures
        names(Seq::<u8>::empty()) == Seq::<Seq<u8>>::empty(),
        names(seq![0x2eu8]) == Seq::<Seq<u8>>::empty(),
        name != seq![0x2eu8] ==> names(name) == seq![name],
        names(a + seq![0x2fu8] + b) == names(a) + names(b),
{
    let dot = seq![0x2eu8];
    lemma_head_len_is(dot, 1);
    assert(head(dot) == dot);
    if name != dot {
        lemma_names_single(name);
    }
    lemma_names_concat(a, b);
}

/// Every name of a path has at least one byte, none that is `/`, and is not `.`.
pub proof fn law_names_are_plain(path: Seq<u8>)
    ensures
        forall|i: int|
            0 <= i < names(path).len() ==> is_plain_name(#[trigger] names(path)[i]),
    decreases path.len(),
{
    if path.len() > 0 {
        lemma_head_len(path);
        let n = head_len(path) as int;
        let part = head(path);
        assert forall|j: int| 0 <= j < part.len() implies #[trigger] part[j] != 0x2f by {
            assert(part[j] == path[j]);
        }
        let first = if names_nothing(part) {
            Seq::empty()
        } else {
            seq![part]
        };
        assert forall|i: int| 0 <= i < first.len() implies is_plain_name(#[trigger] first[i]) by {
            assert(first[i] == part);
        }
        if n < path.len() {
            let rest = names(path.skip(n + 1));
            law_names_are_plain(path.skip(n + 1));
            assert(names(path) == first + rest);
            assert forall|i: int| 0 <= i < names(path).len() implies is_plain_name(
                #[trigger] names(path)[i],
            ) by {
                if i < first.len() {
                    assert(names(path)[i] == first[i]);
                } else {
                    assert(names(path)[i] == rest[i - first.len()]);
                }
            }
        }
    }
}

/// Whether `name` has at least one byte, none that is `/`, and is not `.`.
pub open spec fn is_plain_name(name: Seq<u8>) -> bool {
    &&& name.len() > 0
    &&& name != seq![0x2eu8]
    &&& forall|i: int| 0 <= i < name.len() ==> #[trigger] name[i] != 0x2f
}

/// Whether a path starts with the name `.`.
pub open spec fn starts_with_dot(path: Seq<u8>) -> bool {
    path.len() > 0 && path[0] == 0x2e && (path.len() == 1 || path[1] == 0x2f)
}

/// Two paths are the same exactly if both or neither are absolute, both or neither start
/// with the name `.`, and they have as many names and each name in common.
pub proof fn law_same_paths_have_the_same_names(a: Seq<u8>, b: Seq<u8>)
    ensures
        same_path(a, b) <==> {
            &&& is_absolute(a) == is_absolute(b)
            &&& starts_with_dot(a) == starts_with_dot(b)
            &&& names(a).len() == names(b).len()
            &&& forall|i: int|
                0 <= i < names(a).len() ==> #[trigger] names(a)[i] == names(b)[i]
        },
{
    lemma_starts_with_dot(a);
    lemma_starts_with_dot(b);
    if names(a).len() == names(b).len() && forall|i: int|
        0 <= i < names(a).len() ==> #[trigger] names(a)[i] == names(b)[i] {
        assert(names(a) == names(b));
    }
}

proof fn lemma_starts_with_dot(path: Seq<u8>)
    ensures
        (head(path) == seq![DOT]) == starts_with_dot(path),
{
    lemma_head_len(path);
    if head(path) == seq![DOT] {
        assert(head(path).len() == 1);
        assert(head(path)[0] == path[0]);
    }
    if starts_with_dot(path) {
        lemma_head_len_is(path, 1);
        assert(head(path) == seq![DOT]);
    }
}

/// An absolute path with the given names.
pub open spec fn rooted(list: Seq<Seq<u8>>) -> Seq<u8>
    decreases list.len(),
{
    if list.len() == 0 {
        Seq::empty()
    } else {
        rooted(list.drop_last()) + seq![0x2fu8] + list.last()
    }
}

/// Absolute paths that are made of names are the same exactly if their names are, however
/// many they are.
pub proof fn law_absolute_paths_differ_by_any_name(a: Seq<Seq<u8>>, b: Seq<Seq<u8>>)
    requires
        a.len() > 0,
        b.len() > 0,
        forall|i: int| 0 <= i < a.len() ==> is_plain_name(#[trigger] a[i]),
        forall|i: int| 0 <= i < b.len() ==> is_plain_name(#[trigger] b[i]),
    ensures
        same_path(rooted(a), rooted(b)) <==> a == b,
        names(rooted(a)) == a,
        is_absolute(rooted(a)),
{
    lemma_rooted(a);
    lemma_rooted(b);
    lemma_starts_with_dot(rooted(a));
    lemma_starts_with_dot(rooted(b));
}

proof fn lemma_rooted(list: Seq<Seq<u8>>)
    requires
        forall|i: int| 0 <= i < list.len() ==> is_plain_name(#[trigger] list[i]),
    ensures
        names(rooted(list)) == list,
        list.len() > 0 ==> is_absolute(rooted(list)),
    decreases list.len(),
{
    if list.len() > 0 {
        let before = list.drop_last();
        let name = list.last();
        assert forall|i: int| 0 <= i < before.len() implies is_plain_name(#[trigger] before[i]) by {
            assert(before[i] == list[i]);
        }
        lemma_rooted(before);
        assert(is_plain_name(list[list.len() - 1]));
        law_names_of_paths(name, rooted(before), name);
        assert(names(rooted(list)) == before + seq![name]);
        assert(before + seq![name] == list);
        if before.len() > 0 {
            assert(rooted(list)[0] == rooted(before)[0]);
        } else {
            assert(rooted(list)[0] == 0x2f);
        }
    }
}

/// Paths are equal exactly if they are the same path.
pub proof fn law_equal_paths(a: FilePath, b: FilePath)
    ensures
        vstd::std_specs::cmp::PartialEqSpec::eq_spec(&a, &b) <==> same_path(a@, b@),
{
}

} // verus!
