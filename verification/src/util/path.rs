//! Paths as text: a path is a string of components between `/`.
//!
//! A path that begins with exactly two slashes is *application defined*;
//! one that begins with any other number of slashes has a root.

use crate::text::{chars_of, find_char, index_of, lemma_index_of, string_of};
use vstd::prelude::*;
use vstd::std_specs::cmp::PartialEqSpecImpl;
use vstd::string::StringExecFns;

verus! {

/// The position of the last `c` in `s`, or `-1` when `s` holds none.
pub open spec fn last_index_of(s: Seq<char>, c: char) -> int
    decreases s.len(),
{
    if s.len() == 0 {
        -1
    } else if s.last() == c {
        s.len() - 1
    } else {
        last_index_of(s.drop_last(), c)
    }
}

/// `s` without its leading slashes.
pub open spec fn trim_start_slashes(s: Seq<char>) -> Seq<char>
    decreases s.len(),
{
    if s.len() > 0 && s[0] == '/' {
        trim_start_slashes(s.drop_first())
    } else {
        s
    }
}

/// `s` without its trailing slashes.
pub open spec fn trim_end_slashes(s: Seq<char>) -> Seq<char>
    decreases s.len(),
{
    if s.len() > 0 && s.last() == '/' {
        trim_end_slashes(s.drop_last())
    } else {
        s
    }
}

/// Whether `s` holds nothing but slashes.
pub open spec fn all_slashes(s: Seq<char>) -> bool {
    forall|i: int| 0 <= i < s.len() ==> s[i] == '/'
}

/// Whether `p` begins with `//`, but not with `///`.
pub open spec fn app_defined(p: Seq<char>) -> bool {
    p.len() >= 2 && p[0] == '/' && p[1] == '/' && (p.len() == 2 || p[2] != '/')
}

/// Whether `p` begins with a slash and is not [`app_defined`].
pub open spec fn rooted(p: Seq<char>) -> bool {
    p.len() > 0 && p[0] == '/' && !app_defined(p)
}

/// `with` joined to `p`: an absolute `with` stands alone, any other comes
/// after `p` and a slash.
pub open spec fn joined(p: Seq<char>, with: Seq<char>) -> Seq<char> {
    if rooted(with) || app_defined(with) {
        with
    } else {
        p + seq!['/'] + with
    }
}

/// The directory part of `p`: what stands before the last slash, without
/// the slashes it ends with; `/` or `//` where nothing but that comes
/// before the last component; `.` where `p` holds no slash.
pub open spec fn dirname_of(p: Seq<char>) -> Seq<char> {
    let i = last_index_of(p, '/');
    if i < 0 {
        seq!['.']
    } else if i == 0 {
        seq!['/']
    } else if i == 1 && p[0] == '/' {
        seq!['/', '/']
    } else if all_slashes(p.take(i)) {
        seq!['/']
    } else {
        trim_end_slashes(p.take(i))
    }
}

/// The last component of `p`: what stands after the last slash, or `.`
/// where that is nothing.
pub open spec fn basename_of(p: Seq<char>) -> Seq<char> {
    let i = last_index_of(p, '/');
    if i < 0 {
        p
    } else if i + 1 == p.len() {
        seq!['.']
    } else {
        p.skip(i + 1)
    }
}

/// Whether the components `parts` are normal: none is empty or `.`, and
/// `..` stands only at the start, and only where `parents` allows it.
pub open spec fn normal_parts(parts: Seq<Seq<char>>, parents: bool) -> bool
    decreases parts.len(),
{
    if parts.len() == 0 {
        true
    } else if parts[0] == Seq::<char>::empty() || parts[0] == seq!['.'] {
        false
    } else if parts[0] == seq!['.', '.'] {
        parents && normal_parts(parts.drop_first(), true)
    } else {
        normal_parts(parts.drop_first(), false)
    }
}

/// The number of slashes, at most two, that `p` begins with.
pub open spec fn lead(p: Seq<char>) -> int {
    if p.len() >= 2 && p[0] == '/' && p[1] == '/' {
        2
    } else if p.len() >= 1 && p[0] == '/' {
        1
    } else {
        0
    }
}

/// Whether `p` is normal: it holds no `.` and no empty component, and `..`
/// only at the start of a relative path. One slash at the end is passed
/// over. The empty path is not normal; `/` and `//` are.
pub open spec fn normal(p: Seq<char>) -> bool {
    let start = lead(p);
    let limit = if p.last() == '/' {
        p.len() - 1
    } else {
        p.len() as int
    };
    if start == p.len() {
        start > 0
    } else {
        normal_parts(crate::text::split(p.subrange(start, limit), '/'), start == 0)
    }
}

/// A component of a path.
#[derive(Clone, Debug, Eq, Ord, PartialOrd, Hash)]
pub enum Component {
    /// The path component `/`.
    RootDir,
    /// The path component `//`.
    AppDefined,
    /// The path component `.`.
    CurDir,
    /// The path component `..`.
    ParentDir,
    /// A component that is none of the special ones.
    Normal(Path),
}

/// What a [`Component`] holds.
pub enum ComponentView {
    RootDir,
    AppDefined,
    CurDir,
    ParentDir,
    Normal(Seq<char>),
}

impl View for Component {
    type V = ComponentView;

    open spec fn view(&self) -> ComponentView {
        match self {
            Component::RootDir => ComponentView::RootDir,
            Component::AppDefined => ComponentView::AppDefined,
            Component::CurDir => ComponentView::CurDir,
            Component::ParentDir => ComponentView::ParentDir,
            Component::Normal(p) => ComponentView::Normal(p@),
        }
    }
}

impl DeepView for Component {
    type V = ComponentView;

    open spec fn deep_view(&self) -> ComponentView {
        self@
    }
}

/// The component that the name `s` stands for.
pub open spec fn named(s: Seq<char>) -> ComponentView {
    if s == seq!['.', '.'] {
        ComponentView::ParentDir
    } else if s == seq!['.'] || s.len() == 0 {
        ComponentView::CurDir
    } else {
        ComponentView::Normal(s)
    }
}

/// Trimming slashes never makes a sequence longer.
pub proof fn lemma_trim_end_slashes_len(s: Seq<char>)
    ensures
        trim_end_slashes(s).len() <= s.len(),
        trim_end_slashes(s) == s.take(trim_end_slashes(s).len() as int),
        trim_end_slashes(s).len() > 0 ==> trim_end_slashes(s).last() != '/',
        all_slashes(s.skip(trim_end_slashes(s).len() as int)),
    decreases s.len(),
{
    if s.len() > 0 && s.last() == '/' {
        lemma_trim_end_slashes_len(s.drop_last());
        let n = trim_end_slashes(s).len() as int;
        assert(s.drop_last().take(n) =~= s.take(n));
        assert forall|i: int| 0 <= i < s.skip(n).len() implies s.skip(n)[i] == '/' by {
            if i < s.drop_last().skip(n).len() {
                assert(s.drop_last().skip(n)[i] == s.skip(n)[i]);
            }
        }
    } else {
        assert(s.take(s.len() as int) =~= s);
    }
}

/// Trimming slashes never makes a sequence longer.
pub proof fn lemma_trim_start_slashes_len(s: Seq<char>)
    ensures
        trim_start_slashes(s).len() <= s.len(),
        trim_start_slashes(s) == s.skip(s.len() - trim_start_slashes(s).len()),
        trim_start_slashes(s).len() > 0 ==> trim_start_slashes(s)[0] != '/',
    decreases s.len(),
{
    if s.len() > 0 && s[0] == '/' {
        lemma_trim_start_slashes_len(s.drop_first());
        let k = s.len() - trim_start_slashes(s).len();
        assert(s.drop_first().skip(k - 1) =~= s.skip(k));
    } else {
        assert(s.skip(0) =~= s);
    }
}

/// [`last_index_of`] is within bounds, holds `c` unless it is `-1`, and no
/// later position holds `c`.
pub proof fn lemma_last_index_of(s: Seq<char>, c: char)
    ensures
        -1 <= last_index_of(s, c) < s.len(),
        last_index_of(s, c) >= 0 ==> s[last_index_of(s, c)] == c,
        forall|j: int| last_index_of(s, c) < j < s.len() ==> s[j] != c,
    decreases s.len(),
{
    if s.len() > 0 && s.last() != c {
        lemma_last_index_of(s.drop_last(), c);
        assert forall|j: int| last_index_of(s, c) < j < s.len() implies s[j] != c by {
            if j < s.len() - 1 {
                assert(s.drop_last()[j] == s[j]);
            }
        }
    }
}

/// A position that holds `c`, or is `-1`, and that no `c` follows is the
/// one [`last_index_of`] gives.
pub proof fn lemma_last_index_of_is(s: Seq<char>, c: char, i: int)
    requires
        -1 <= i < s.len(),
        i >= 0 ==> s[i] == c,
        forall|j: int| i < j < s.len() ==> s[j] != c,
    ensures
        last_index_of(s, c) == i,
    decreases s.len(),
{
    if s.len() > 0 && s.last() != c {
        assert forall|j: int| i < j < s.drop_last().len() implies s.drop_last()[j] != c by {
            assert(s.drop_last()[j] == s[j]);
        }
        lemma_last_index_of_is(s.drop_last(), c, i);
    }
}

/// The components of `p`, from the root to the last. The last component
/// comes after the last slash, and is `.` where nothing comes after it.
/// Before it come the root, or else the components of what stands before
/// the last slash, without the slashes it ends with.
pub open spec fn components_of(p: Seq<char>) -> Seq<ComponentView>
    decreases p.len(),
    via components_of_decreases
{
    let i = last_index_of(p, '/');
    if i < 0 {
        if p.len() == 0 {
            Seq::empty()
        } else {
            seq![named(p)]
        }
    } else {
        let last = named(p.skip(i + 1));
        if i == 0 {
            seq![ComponentView::RootDir, last]
        } else if i == 1 && p[0] == '/' {
            seq![ComponentView::AppDefined, last]
        } else if all_slashes(p.take(i)) {
            seq![ComponentView::RootDir, last]
        } else {
            components_of(trim_end_slashes(p.take(i))).push(last)
        }
    }
}

#[via_fn]
proof fn components_of_decreases(p: Seq<char>) {
    lemma_last_index_of(p, '/');
    let i = last_index_of(p, '/');
    if i >= 0 {
        lemma_trim_end_slashes_len(p.take(i));
    }
}

/// What is left of `path` after the components of `prefix`, both without
/// leading slashes. Component by component the two must agree; then what
/// remains of the path, without leading slashes, is the answer, and it is
/// `.` where nothing remains. A component `.` at the start of the path is
/// passed over where the path does not begin with the prefix.
pub open spec fn stripped(path: Seq<char>, prefix: Seq<char>) -> Option<Seq<char>>
    decreases path.len() + prefix.len(),
    via stripped_decreases
{
    let ps = index_of(prefix, '/');
    let qs = index_of(path, '/');
    if ps < prefix.len() {
        if qs >= path.len() || prefix.take(ps) != path.take(qs) {
            None
        } else {
            stripped(trim_start_slashes(path.skip(qs + 1)), trim_start_slashes(prefix.skip(ps + 1)))
        }
    } else if prefix == path {
        Some(seq!['.'])
    } else if crate::text::starts_with(path, prefix) {
        or_dot(trim_start_slashes(path.skip(prefix.len() as int)))
    } else if crate::text::starts_with(path, seq!['.', '/']) {
        stripped(trim_start_slashes(path.skip(2)), prefix)
    } else if prefix == seq!['.'] {
        or_dot(path)
    } else {
        None
    }
}

#[via_fn]
proof fn stripped_decreases(path: Seq<char>, prefix: Seq<char>) {
    lemma_index_of(prefix, '/');
    lemma_index_of(path, '/');
    let ps = index_of(prefix, '/');
    let qs = index_of(path, '/');
    if ps < prefix.len() {
        if !(qs >= path.len() || prefix.take(ps) != path.take(qs)) {
            lemma_trim_start_slashes_len(path.skip(qs + 1));
            lemma_trim_start_slashes_len(prefix.skip(ps + 1));
        }
    } else if crate::text::starts_with(path, seq!['.', '/']) {
        lemma_trim_start_slashes_len(path.skip(2));
    }
}

/// `s`, or `.` where `s` is empty.
pub open spec fn or_dot(s: Seq<char>) -> Option<Seq<char>> {
    if s.len() == 0 {
        Some(seq!['.'])
    } else {
        Some(s)
    }
}

/// What is left of `path` after `prefix`, if `path` begins with it. A path
/// with a root has no prefix without one, and an application-defined path
/// none that is not application defined.
pub open spec fn strip_prefix_of(path: Seq<char>, prefix: Seq<char>) -> Option<Seq<char>> {
    if rooted(path) && !rooted(prefix) {
        None
    } else if app_defined(path) && !app_defined(prefix) {
        None
    } else {
        stripped(trim_start_slashes(path), trim_start_slashes(prefix))
    }
}

/// A path as text.
#[derive(Debug, Hash, Eq, PartialOrd, Ord)]
pub struct Path {
    path: String,
}

impl PartialEq for Path {
    fn eq(&self, other: &Self) -> (r: bool) {
        self.path == other.path
    }
}

impl PartialEqSpecImpl for Path {
    open spec fn obeys_eq_spec() -> bool {
        true
    }

    open spec fn eq_spec(&self, other: &Self) -> bool {
        self@ == other@
    }
}

impl View for Path {
    type V = Seq<char>;

    closed spec fn view(&self) -> Seq<char> {
        self.path@
    }
}

impl DeepView for Path {
    type V = Seq<char>;

    open spec fn deep_view(&self) -> Seq<char> {
        self@
    }
}

impl Clone for Path {
    fn clone(&self) -> (r: Self)
        ensures
            r@ == self@,
    {
        Path { path: self.path.clone() }
    }
}

impl PartialEq for Component {
    fn eq(&self, other: &Self) -> (r: bool) {
        match (self, other) {
            (Component::RootDir, Component::RootDir) => true,
            (Component::AppDefined, Component::AppDefined) => true,
            (Component::CurDir, Component::CurDir) => true,
            (Component::ParentDir, Component::ParentDir) => true,
            (Component::Normal(a), Component::Normal(b)) => *a == *b,
            _ => false,
        }
    }
}

impl PartialEqSpecImpl for Component {
    open spec fn obeys_eq_spec() -> bool {
        true
    }

    open spec fn eq_spec(&self, other: &Self) -> bool {
        self@ == other@
    }
}

/// The first position from `lo` on in `v[lo..hi]` that holds no slash.
fn skip_slashes(v: &Vec<char>, lo: usize, hi: usize) -> (r: usize)
    requires
        lo <= hi <= v.len(),
    ensures
        lo <= r <= hi,
        v@.subrange(r as int, hi as int) == trim_start_slashes(v@.subrange(lo as int, hi as int)),
{
    let mut a: usize = lo;
    while a < hi && v[a] == '/'
        invariant
            lo <= a <= hi <= v.len(),
            trim_start_slashes(v@.subrange(lo as int, hi as int)) == trim_start_slashes(
                v@.subrange(a as int, hi as int),
            ),
        decreases hi - a,
    {
        assert(v@.subrange(a as int, hi as int).drop_first() =~= v@.subrange(
            a as int + 1,
            hi as int,
        ));
        a += 1;
    }
    a
}

/// The end of `v[lo..hi]` without its trailing slashes.
fn drop_slashes(v: &Vec<char>, lo: usize, hi: usize) -> (r: usize)
    requires
        lo <= hi <= v.len(),
    ensures
        lo <= r <= hi,
        v@.subrange(lo as int, r as int) == trim_end_slashes(v@.subrange(lo as int, hi as int)),
{
    let mut b: usize = hi;
    while lo < b && v[b - 1] == '/'
        invariant
            lo <= b <= hi <= v.len(),
            trim_end_slashes(v@.subrange(lo as int, hi as int)) == trim_end_slashes(
                v@.subrange(lo as int, b as int),
            ),
        decreases b - lo,
    {
        assert(v@.subrange(lo as int, b as int).drop_last() =~= v@.subrange(
            lo as int,
            b as int - 1,
        ));
        b -= 1;
    }
    b
}

/// The position of the last `c` in `v[..hi]`.
fn rfind_char(v: &Vec<char>, hi: usize, c: char) -> (r: Option<usize>)
    requires
        hi <= v.len(),
    ensures
        match r {
            Some(i) => i < hi && i == last_index_of(v@.take(hi as int), c),
            None => last_index_of(v@.take(hi as int), c) == -1,
        },
{
    let mut i: usize = hi;
    while i > 0
        invariant
            i <= hi <= v.len(),
            forall|j: int| i <= j < hi ==> v@[j] != c,
        decreases i,
    {
        i -= 1;
        if v[i] == c {
            proof {
                lemma_last_index_of_is(v@.take(hi as int), c, i as int);
            }
            return Some(i);
        }
    }
    proof {
        lemma_last_index_of_is(v@.take(hi as int), c, -1);
    }
    None
}

/// Whether `v[..hi]` holds nothing but slashes.
fn only_slashes(v: &Vec<char>, hi: usize) -> (b: bool)
    requires
        hi <= v.len(),
    ensures
        b == all_slashes(v@.take(hi as int)),
{
    let mut i: usize = 0;
    while i < hi
        invariant
            i <= hi <= v.len(),
            forall|j: int| 0 <= j < i ==> v@[j] == '/',
        decreases hi - i,
    {
        if v[i] != '/' {
            assert(v@.take(hi as int)[i as int] != '/');
            return false;
        }
        i += 1;
    }
    true
}

/// Whether `v[a..b]` and `w[c..d]` hold the same characters.
fn same_range(v: &Vec<char>, a: usize, b: usize, w: &Vec<char>, c: usize, d: usize) -> (r: bool)
    requires
        a <= b <= v.len(),
        c <= d <= w.len(),
    ensures
        r == (v@.subrange(a as int, b as int) == w@.subrange(c as int, d as int)),
{
    let ghost x = v@.subrange(a as int, b as int);
    let ghost y = w@.subrange(c as int, d as int);
    if b - a != d - c {
        assert(x.len() != y.len());
        return false;
    }
    let n = b - a;
    let mut i: usize = 0;
    while i < n
        invariant
            i <= n,
            n == b - a,
            n == d - c,
            a <= b <= v.len(),
            c <= d <= w.len(),
            x == v@.subrange(a as int, b as int),
            y == w@.subrange(c as int, d as int),
            forall|j: int| 0 <= j < i ==> x[j] == y[j],
        decreases n - i,
    {
        if v[a + i] != w[c + i] {
            assert(x[i as int] != y[i as int]);
            return false;
        }
        i += 1;
    }
    assert(x =~= y);
    true
}

/// The component that the name `v[lo..hi]` stands for.
fn name_range(v: &Vec<char>, lo: usize, hi: usize) -> (c: Component)
    requires
        lo <= hi <= v.len(),
    ensures
        c@ == named(v@.subrange(lo as int, hi as int)),
{
    let ghost s = v@.subrange(lo as int, hi as int);
    if hi - lo == 2 && v[lo] == '.' && v[lo + 1] == '.' {
        assert(s =~= seq!['.', '.']);
        Component::ParentDir
    } else if hi - lo == 1 && v[lo] == '.' {
        assert(s =~= seq!['.']);
        Component::CurDir
    } else if hi == lo {
        Component::CurDir
    } else {
        assert(s != seq!['.', '.']) by {
            if s.len() == 2 {
                assert(s[0] == v@[lo as int] && s[1] == v@[lo + 1]);
            }
        }
        assert(s != seq!['.']) by {
            if s.len() == 1 {
                assert(s[0] == v@[lo as int]);
            }
        }
        Component::Normal(Path { path: string_of(v, lo, hi) })
    }
}

/// The components of the path `v[..limit]`.
fn components_upto(v: &Vec<char>, limit: usize) -> (r: Vec<Component>)
    requires
        limit <= v.len(),
    ensures
        r.deep_view() == components_of(v@.take(limit as int)),
    decreases limit,
{
    let ghost p = v@.take(limit as int);
    let mut r: Vec<Component> = Vec::new();
    match rfind_char(v, limit, '/') {
        None => {
            if limit > 0 {
                assert(v@.subrange(0, limit as int) =~= p);
                let c = name_range(v, 0, limit);
                r.push(c);
                assert(r.deep_view() =~= seq![c@]);
            } else {
                assert(r.deep_view() =~= Seq::<ComponentView>::empty());
            }
            r
        },
        Some(slash) => {
            assert(p.skip(slash + 1) =~= v@.subrange(slash + 1, limit as int));
            assert(p.take(slash as int) =~= v@.take(slash as int));
            let last = name_range(v, slash + 1, limit);
            if slash == 0 {
                r.push(Component::RootDir);
                r.push(last);
                assert(r.deep_view() =~= seq![ComponentView::RootDir, last@]);
            } else if slash == 1 && v[0] == '/' {
                r.push(Component::AppDefined);
                r.push(last);
                assert(r.deep_view() =~= seq![ComponentView::AppDefined, last@]);
            } else if only_slashes(v, slash) {
                r.push(Component::RootDir);
                r.push(last);
                assert(r.deep_view() =~= seq![ComponentView::RootDir, last@]);
            } else {
                assert(v@.subrange(0, slash as int) =~= v@.take(slash as int));
                let end = drop_slashes(v, 0, slash);
                assert(v@.subrange(0, end as int) =~= v@.take(end as int));
                r = components_upto(v, end);
                let ghost before = r.deep_view();
                r.push(last);
                assert(r.deep_view() =~= before.push(last@));
            }
            r
        },
    }
}

impl Path {
    /// The path that `s` spells.
    pub fn new(s: &str) -> (p: Path)
        ensures
            p@ == s@,
    {
        Path { path: String::from_str(s) }
    }

    /// The path that `s` spells.
    pub fn from_string(s: String) -> (p: Path)
        ensures
            p@ == s@,
    {
        Path { path: s }
    }

    /// The path as a string of its own.
    pub fn into_string(self) -> (s: String)
        ensures
            s@ == self@,
    {
        self.path
    }

    /// The path as a value that borrows nothing.
    pub fn into_owned(self) -> (p: Path)
        ensures
            p@ == self@,
    {
        Path { path: self.path }
    }

    /// The path as text.
    pub fn as_str(&self) -> (s: &str)
        ensures
            s@ == self@,
    {
        self.path.as_str()
    }

    /// The last component of the path. It is never empty: a path that ends
    /// with a slash has the last component `.`.
    pub fn basename(&self) -> (p: Path)
        ensures
            p@ == basename_of(self@),
    {
        self.split().1
    }

    /// The directory part of the path. It is never empty: it is `.` for a
    /// path of one component, and `/` or `//` directly below the root.
    pub fn dirname(&self) -> (p: Path)
        ensures
            p@ == dirname_of(self@),
    {
        self.split().0
    }

    /// Whether the path begins with some number of slashes other than two.
    pub fn has_root(&self) -> (b: bool)
        ensures
            b == rooted(self@),
    {
        let s = self.path.as_str();
        !s.is_empty() && s.get_char(0) == '/' && !self.has_app_defined()
    }

    /// Whether the path begins with `//`, but not with `///`.
    pub fn has_app_defined(&self) -> (b: bool)
        ensures
            b == app_defined(self@),
    {
        let v = chars_of(self.path.as_str());
        v.len() >= 2 && v[0] == '/' && v[1] == '/' && (v.len() == 2 || v[2] != '/')
    }

    /// Whether the path is absolute.
    pub fn is_abs(&self) -> (b: bool)
        ensures
            b == (rooted(self@) || app_defined(self@)),
    {
        self.has_root() || self.has_app_defined()
    }

    /// Whether the path holds no `.` component and no empty one, and `..`
    /// only at the start of a relative path.
    pub fn is_normal(&self) -> (b: bool)
        ensures
            b == normal(self@),
    {
        let v = chars_of(self.path.as_str());
        let n = v.len();
        let start: usize = if n >= 2 && v[0] == '/' && v[1] == '/' {
            2
        } else if n >= 1 && v[0] == '/' {
            1
        } else {
            0
        };
        if start == n {
            return start > 0;
        }
        let limit = if v[n - 1] == '/' {
            n - 1
        } else {
            n
        };
        let mut parents = start == 0;
        let mut pos: usize = start;
        assert(v@.last() == v@[n - 1]);
        loop
            invariant
                start <= pos <= limit <= n,
                n == v.len(),
                normal(self@) == normal_parts(
                    crate::text::split(v@.subrange(pos as int, limit as int), '/'),
                    parents,
                ),
            decreases limit - pos,
        {
            let ghost rest = v@.subrange(pos as int, limit as int);
            let end = find_char(&v, pos, limit, '/');
            let ghost part = v@.subrange(pos as int, end as int);
            proof {
                reveal_with_fuel(normal_parts, 2);
                lemma_index_of(rest, '/');
                assert(rest.take(end - pos) =~= part);
                if end < limit {
                    assert(rest.skip(end - pos + 1) =~= v@.subrange(end as int + 1, limit as int));
                    assert(crate::text::split(rest, '/').drop_first() =~= crate::text::split(
                        rest.skip(end - pos + 1),
                        '/',
                    ));
                } else {
                    assert(crate::text::split(rest, '/').drop_first() =~= Seq::<
                        Seq<char>,
                    >::empty());
                }
                assert(crate::text::split(rest, '/')[0] == part);
            }
            let dot = end - pos == 1 && v[pos] == '.';
            let dots = end - pos == 2 && v[pos] == '.' && v[pos + 1] == '.';
            proof {
                if dot {
                    assert(part =~= seq!['.']);
                } else if part.len() == 1 {
                    assert(part[0] != '.');
                }
                if dots {
                    assert(part =~= seq!['.', '.']);
                } else if part.len() == 2 {
                    assert(part[0] != '.' || part[1] != '.');
                }
                if end == pos {
                    assert(part =~= Seq::<char>::empty());
                }
            }
            if end == pos || dot {
                return false;
            }
            if dots {
                if !parents {
                    return false;
                }
            } else {
                parents = false;
            }
            if end < limit {
                pos = end + 1;
            } else {
                return true;
            }
        }
    }

    /// `with` joined to this path: an absolute `with` stands alone, any
    /// other comes after this path and a slash.
    pub fn join(&self, with: &Path) -> (p: Path)
        ensures
            p@ == joined(self@, with@),
    {
        if with.is_abs() {
            with.clone()
        } else {
            let mut s = self.path.clone();
            s.push('/');
            s.append(with.path.as_str());
            Path { path: s }
        }
    }

    /// What is left of this path after `prefix`, if the path begins with
    /// it.
    pub fn strip_prefix(&self, prefix: &Path) -> (r: Option<Path>)
        ensures
            r.deep_view() == strip_prefix_of(self@, prefix@),
    {
        if self.has_root() && !prefix.has_root() {
            return None;
        }
        if self.has_app_defined() && !prefix.has_app_defined() {
            return None;
        }
        let p = chars_of(self.path.as_str());
        let q = chars_of(prefix.path.as_str());
        let pn = p.len();
        let qn = q.len();
        assert(p@.subrange(0, pn as int) =~= p@);
        assert(q@.subrange(0, qn as int) =~= q@);
        let mut a = skip_slashes(&p, 0, pn);
        let mut c = skip_slashes(&q, 0, qn);
        loop
            invariant
                a <= pn == p.len(),
                c <= qn == q.len(),
                strip_prefix_of(self@, prefix@) == stripped(
                    p@.subrange(a as int, pn as int),
                    q@.subrange(c as int, qn as int),
                ),
            decreases (pn - a) + (qn - c),
        {
            let ghost path = p@.subrange(a as int, pn as int);
            let ghost pre = q@.subrange(c as int, qn as int);
            let ps = find_char(&q, c, qn, '/');
            let qs = find_char(&p, a, pn, '/');
            proof {
                assert(pre.take(ps - c) =~= q@.subrange(c as int, ps as int));
                assert(path.take(qs - a) =~= p@.subrange(a as int, qs as int));
            }
            if ps < qn {
                if qs >= pn || !same_range(&q, c, ps, &p, a, qs) {
                    return None;
                }
                proof {
                    assert(path.skip(qs - a + 1) =~= p@.subrange(qs as int + 1, pn as int));
                    assert(pre.skip(ps - c + 1) =~= q@.subrange(ps as int + 1, qn as int));
                }
                a = skip_slashes(&p, qs + 1, pn);
                c = skip_slashes(&q, ps + 1, qn);
            } else if same_range(&q, c, qn, &p, a, pn) {
                proof {
                    reveal_strlit(".");
                }
                return Some(Path::new("."));
            } else if qn - c <= pn - a && same_range(&q, c, qn, &p, a, a + (qn - c)) {
                proof {
                    assert(path.take(pre.len() as int) =~= p@.subrange(
                        a as int,
                        a + (qn - c) as int,
                    ));
                    assert(path.skip(pre.len() as int) =~= p@.subrange(
                        a + (qn - c) as int,
                        pn as int,
                    ));
                }
                let from = skip_slashes(&p, a + (qn - c), pn);
                return Some(Self::or_dot(&p, from, pn));
            } else if pn - a >= 2 && p[a] == '.' && p[a + 1] == '/' {
                proof {
                    assert(path.take(2) =~= seq!['.', '/']);
                    assert(path.skip(2) =~= p@.subrange(a as int + 2, pn as int));
                    if qn - c <= pn - a {
                        assert(path.take(pre.len() as int) =~= p@.subrange(
                            a as int,
                            a + (qn - c) as int,
                        ));
                    }
                }
                a = skip_slashes(&p, a + 2, pn);
            } else {
                proof {
                    if path.len() >= 2 {
                        assert(path.take(2)[0] == path[0] && path.take(2)[1] == path[1]);
                    }
                    if qn - c <= pn - a {
                        assert(path.take(pre.len() as int) =~= p@.subrange(
                            a as int,
                            a + (qn - c) as int,
                        ));
                    }
                }
                if qn - c == 1 && q[c] == '.' {
                    assert(pre =~= seq!['.']);
                    return Some(Self::or_dot(&p, a, pn));
                }
                assert(pre != seq!['.']) by {
                    if pre.len() == 1 {
                        assert(pre[0] == q@[c as int]);
                    }
                }
                return None;
            }
        }
    }

    /// The path `v[lo..hi]`, or `.` where that is empty.
    fn or_dot(v: &Vec<char>, lo: usize, hi: usize) -> (p: Path)
        requires
            lo <= hi <= v.len(),
        ensures
            Some(p@) == or_dot(v@.subrange(lo as int, hi as int)),
    {
        if lo == hi {
            proof {
                reveal_strlit(".");
            }
            Path::new(".")
        } else {
            Path { path: string_of(v, lo, hi) }
        }
    }

    /// The directory part and the last component of the path.
    pub fn split(&self) -> (r: (Path, Path))
        ensures
            r.0@ == dirname_of(self@),
            r.1@ == basename_of(self@),
    {
        let v = chars_of(self.path.as_str());
        let n = v.len();
        assert(v@.take(n as int) =~= v@);
        proof {
            reveal_strlit(".");
            reveal_strlit("/");
            reveal_strlit("//");
        }
        match rfind_char(&v, n, '/') {
            Some(index) => {
                let dirname = if index == 0 {
                    Path::new("/")
                } else if index == 1 && v[0] == '/' {
                    Path::new("//")
                } else if only_slashes(&v, index) {
                    Path::new("/")
                } else {
                    let end = drop_slashes(&v, 0, index);
                    assert(v@.subrange(0, index as int) =~= v@.take(index as int));
                    Path { path: string_of(&v, 0, end) }
                };
                let basename = if index + 1 == n {
                    Path::new(".")
                } else {
                    assert(v@.skip(index + 1) =~= v@.subrange(index + 1, n as int));
                    Path { path: string_of(&v, index + 1, n) }
                };
                assert(dirname@ =~= dirname_of(self@));
                assert(basename@ =~= basename_of(self@));
                (dirname, basename)
            },
            None => {
                let dirname = Path::new(".");
                assert(dirname@ =~= dirname_of(self@));
                (dirname, self.clone())
            },
        }
    }

    /// The components of the path, from the root to the last. A path whose
    /// last component is `.` ends with [`Component::CurDir`].
    pub fn components(&self) -> (r: Vec<Component>)
        ensures
            r.deep_view() == components_of(self@),
    {
        let v = chars_of(self.path.as_str());
        assert(v@.take(v.len() as int) =~= self@);
        components_upto(&v, v.len())
    }
}

} // verus!
