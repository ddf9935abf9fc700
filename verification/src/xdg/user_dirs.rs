//! The file `user-dirs.dirs`, which names the user's well-known directories.
//!
//! A line `XDG_NAME_DIR="path"` names the directory `name`. The path is
//! written as the shell would read it; it counts when it is absolute or
//! lies below `$HOME`.

use crate::seqs::lemma_filter_map_prepend;
use crate::text::{
    chars_of, ends_with, find_char, index_of, join, join_path, lemma_index_of, split, starts_with,
    string_of, trim, trim_range,
};
use vstd::prelude::*;
use vstd::string::StringExecFns;

verus! {

/// What `str::to_lowercase` gives for a string: its lowercase form by the
/// Unicode rules.
pub uninterp spec fn lowercase(s: Seq<char>) -> Seq<char>;

/// `str::to_lowercase` returns the lowercase form of the string, which
/// depends on its characters alone.
pub assume_specification[ str::to_lowercase ](s: &str) -> (r: String)
    ensures
        r@ == lowercase(s@),
;

/// One of the user's well-known directories.
#[derive(Debug)]
pub struct UserDir {
    /// The name, such as `desktop` from `XDG_DESKTOP_DIR`.
    pub name: String,
    pub path: String,
}

/// What a [`UserDir`] holds, as character sequences.
pub struct UserDirView {
    pub name: Seq<char>,
    pub path: Seq<char>,
}

impl View for UserDir {
    type V = UserDirView;

    open spec fn view(&self) -> UserDirView {
        UserDirView { name: self.name@, path: self.path@ }
    }
}

impl DeepView for UserDir {
    type V = UserDirView;

    open spec fn deep_view(&self) -> UserDirView {
        self@
    }
}

/// `s` as the shell reads it between double quotes: a backslash gives way
/// to the character after it. A backslash at the very end is dropped.
pub open spec fn unescaped(s: Seq<char>) -> Seq<char>
    decreases s.len(),
{
    if s.len() == 0 {
        Seq::empty()
    } else if s[0] != '\\' {
        seq![s[0]] + unescaped(s.drop_first())
    } else if s.len() == 1 {
        Seq::empty()
    } else {
        seq![s[1]] + unescaped(s.skip(2))
    }
}

/// The directory that one line names, if it names one. The line is trimmed
/// and split at its first `=`. The key has the shape `XDG_NAME_DIR` with a
/// name of at least one character, and the value stands in double quotes.
/// The value `$HOME/` switches the directory off. Any other value counts
/// when, once unescaped, it begins with `$HOME/` or with `/`.
pub open spec fn user_dir_of_line(line: Seq<char>, home: Seq<char>) -> Option<UserDirView> {
    let t = trim(line);
    let eq = index_of(t, '=');
    let key = t.take(eq);
    let value = t.skip(eq + 1);
    let name = lowercase(key.subrange(4, key.len() - 4));
    let inner = value.subrange(1, value.len() - 1);
    let path = unescaped(inner);
    if eq >= t.len() {
        None
    } else if key.len() < 8 || !starts_with(key, "XDG_"@) || !ends_with(key, "_DIR"@) {
        None
    } else if value.len() < 2 || value[0] != '"' || value.last() != '"' {
        None
    } else if inner == "$HOME/"@ {
        None
    } else if starts_with(path, "$HOME/"@) {
        Some(UserDirView { name, path: join(home, path.skip(6)) })
    } else if starts_with(path, "/"@) {
        Some(UserDirView { name, path })
    } else {
        None
    }
}

/// The directories that the lines of `text` name, in order.
pub open spec fn user_dirs_of(text: Seq<char>, home: Seq<char>) -> Seq<UserDirView> {
    split(text, '\n').filter_map(|line: Seq<char>| user_dir_of_line(line, home))
}

/// How [`user_dirs_of`] unfolds at the first line break of a text.
pub proof fn lemma_user_dirs_unfold(text: Seq<char>, home: Seq<char>)
    ensures
        user_dirs_of(text, home) == {
            let end = index_of(text, '\n');
            let first = match user_dir_of_line(text.take(end), home) {
                Some(d) => seq![d],
                None => Seq::empty(),
            };
            if end < text.len() {
                first + user_dirs_of(text.skip(end + 1), home)
            } else {
                first
            }
        },
{
    lemma_index_of(text, '\n');
    let end = index_of(text, '\n');
    let f = |line: Seq<char>| user_dir_of_line(line, home);
    if end < text.len() {
        lemma_filter_map_prepend(text.take(end), split(text.skip(end + 1), '\n'), f);
    } else {
        assert(text.take(end) =~= text);
        Seq::lemma_filter_map_singleton(text, f);
    }
}

/// The empty text names no directory.
pub proof fn lemma_user_dirs_empty(home: Seq<char>)
    ensures
        user_dirs_of(Seq::empty(), home) == Seq::<UserDirView>::empty(),
{
    lemma_user_dirs_unfold(Seq::empty(), home);
    assert(Seq::<char>::empty().take(0) =~= Seq::<char>::empty());
}

/// `s` as the shell reads it between double quotes.
pub fn shell_unescape(s: &str) -> (out: String)
    ensures
        out@ == unescaped(s@),
{
    let v = chars_of(s);
    let mut out = String::new();
    let mut i: usize = 0;
    assert(v@.skip(0) =~= v@);
    assert(out@ + unescaped(v@) =~= unescaped(v@));
    while i < v.len()
        invariant
            i <= v.len(),
            v@ == s@,
            unescaped(s@) == out@ + unescaped(v@.skip(i as int)),
        decreases v.len() - i,
    {
        let ghost rest = v@.skip(i as int);
        let ghost before = out@;
        if v[i] != '\\' {
            out.push(v[i]);
            assert(rest.drop_first() =~= v@.skip(i + 1));
            i += 1;
        } else if i + 1 < v.len() {
            out.push(v[i + 1]);
            assert(rest.skip(2) =~= v@.skip(i + 2));
            i += 2;
        } else {
            assert(rest.len() == 1);
            i += 1;
            assert(v@.skip(i as int) =~= Seq::<char>::empty());
        }
        assert(unescaped(s@) =~= out@ + unescaped(v@.skip(i as int)));
    }
    assert(v@.skip(i as int) =~= Seq::<char>::empty());
    assert(out@ + Seq::<char>::empty() =~= out@);
    out
}

/// Whether `v[lo..hi]` begins with the characters of `prefix`.
pub fn range_starts_with(v: &Vec<char>, lo: usize, hi: usize, prefix: &str) -> (b: bool)
    requires
        lo <= hi <= v.len(),
    ensures
        b == starts_with(v@.subrange(lo as int, hi as int), prefix@),
{
    let p = chars_of(prefix);
    if p.len() > hi - lo {
        return false;
    }
    let ghost s = v@.subrange(lo as int, hi as int);
    let mut i: usize = 0;
    while i < p.len()
        invariant
            i <= p.len() <= hi - lo,
            lo <= hi <= v.len(),
            s == v@.subrange(lo as int, hi as int),
            p@ == prefix@,
            forall|j: int| 0 <= j < i ==> s[j] == p@[j],
        decreases p.len() - i,
    {
        if v[lo + i] != p[i] {
            assert(s.take(p.len() as int)[i as int] != p@[i as int]);
            return false;
        }
        i += 1;
    }
    assert(s.take(p.len() as int) =~= p@);
    true
}

/// Whether `v[lo..hi]` ends with the characters of `suffix`.
pub fn range_ends_with(v: &Vec<char>, lo: usize, hi: usize, suffix: &str) -> (b: bool)
    requires
        lo <= hi <= v.len(),
    ensures
        b == ends_with(v@.subrange(lo as int, hi as int), suffix@),
{
    let p = chars_of(suffix);
    if p.len() > hi - lo {
        return false;
    }
    let ghost s = v@.subrange(lo as int, hi as int);
    let start = hi - p.len();
    let mut i: usize = 0;
    while i < p.len()
        invariant
            i <= p.len() <= hi - lo,
            lo <= hi <= v.len(),
            start == hi - p.len(),
            s == v@.subrange(lo as int, hi as int),
            p@ == suffix@,
            forall|j: int| 0 <= j < i ==> s[s.len() - p.len() + j] == p@[j],
        decreases p.len() - i,
    {
        if v[start + i] != p[i] {
            assert(s.skip(s.len() - p.len())[i as int] != p@[i as int]);
            return false;
        }
        i += 1;
    }
    assert(s.skip(s.len() - p.len()) =~= p@);
    true
}

/// Whether `v[lo..hi]` is the text `other`.
pub fn range_is(v: &Vec<char>, lo: usize, hi: usize, other: &str) -> (b: bool)
    requires
        lo <= hi <= v.len(),
    ensures
        b == (v@.subrange(lo as int, hi as int) == other@),
{
    let p = chars_of(other);
    if p.len() != hi - lo {
        return false;
    }
    let b = range_starts_with(v, lo, hi, other);
    assert(v@.subrange(lo as int, hi as int).take(p.len() as int) =~= v@.subrange(
        lo as int,
        hi as int,
    ));
    b
}

/// A parser of `user-dirs.dirs`: it hands out the directories that the
/// text names one at a time.
#[derive(Debug)]
pub struct UserDirParser {
    text: Vec<char>,
    pos: usize,
    /// The user's home directory, which paths below `$HOME` are joined to.
    home: String,
}

impl UserDirParser {
    #[verifier::type_invariant]
    spec fn inv(&self) -> bool {
        self.pos <= self.text.len()
    }

    /// The directories that are still to come.
    pub closed spec fn remaining(&self) -> Seq<UserDirView> {
        user_dirs_of(self.text@.skip(self.pos as int), self.home@)
    }

    /// A parser at the start of `s`, for a user whose home directory is
    /// `home`.
    pub fn new(s: &str, home: &str) -> (p: UserDirParser)
        ensures
            p.remaining() == user_dirs_of(s@, home@),
    {
        let text = chars_of(s);
        assert(text@.skip(0) =~= s@);
        UserDirParser { text, pos: 0, home: String::from_str(home) }
    }

    /// The directory that the line `text[start..end]` names, if it names one.
    fn line(&self, start: usize, end: usize) -> (r: Option<UserDir>)
        requires
            start <= end <= self.text.len(),
        ensures
            r.deep_view() == user_dir_of_line(
                self.text@.subrange(start as int, end as int),
                self.home@,
            ),
    {
        let (a, b) = trim_range(&self.text, start, end);
        let ghost t = self.text@.subrange(a as int, b as int);
        let eq = find_char(&self.text, a, b, '=');
        if eq >= b {
            return None;
        }
        let ghost key = t.take(eq - a);
        let ghost value = t.skip(eq - a + 1);
        assert(key =~= self.text@.subrange(a as int, eq as int));
        assert(value =~= self.text@.subrange(eq as int + 1, b as int));
        if eq - a < 8 || !range_starts_with(&self.text, a, eq, "XDG_") || !range_ends_with(
            &self.text,
            a,
            eq,
            "_DIR",
        ) {
            return None;
        }
        let v0 = eq + 1;
        if b - v0 < 2 || self.text[v0] != '"' || self.text[b - 1] != '"' {
            return None;
        }
        assert(value.subrange(1, value.len() - 1) =~= self.text@.subrange(
            v0 as int + 1,
            b as int - 1,
        ));
        if range_is(&self.text, v0 + 1, b - 1, "$HOME/") {
            return None;
        }
        let stem = string_of(&self.text, a + 4, eq - 4);
        assert(key.subrange(4, key.len() - 4) =~= self.text@.subrange(a as int + 4, eq as int - 4));
        let inner = string_of(&self.text, v0 + 1, b - 1);
        let plain = chars_of(shell_unescape(inner.as_str()).as_str());
        assert(plain@.subrange(0, plain.len() as int) =~= plain@);
        proof {
            reveal_strlit("$HOME/");
        }
        if range_starts_with(&plain, 0, plain.len(), "$HOME/") {
            let below = string_of(&plain, 6, plain.len());
            assert(plain@.skip(6) =~= plain@.subrange(6, plain.len() as int));
            let name = stem.as_str().to_lowercase();
            Some(UserDir { name, path: join_path(self.home.as_str(), below.as_str()) })
        } else if range_starts_with(&plain, 0, plain.len(), "/") {
            let name = stem.as_str().to_lowercase();
            Some(UserDir { name, path: string_of(&plain, 0, plain.len()) })
        } else {
            None
        }
    }

    /// The next directory that the text names, or `None` when there is none
    /// left.
    pub fn next(&mut self) -> (r: Option<UserDir>)
        ensures
            match r {
                Some(d) => old(self).remaining().len() > 0 && d@ == old(self).remaining()[0]
                    && final(self).remaining() == old(self).remaining().drop_first(),
                None => old(self).remaining().len() == 0 && final(self).remaining().len() == 0,
            },
    {
        proof {
            use_type_invariant(&*self);
        }
        let n = self.text.len();
        while self.pos < n
            invariant
                n == self.text.len(),
                self.pos <= n,
                self.text == old(self).text,
                self.home == old(self).home,
                self.remaining() == old(self).remaining(),
            decreases n - self.pos,
        {
            let ghost rest = self.text@.skip(self.pos as int);
            let start = self.pos;
            let end = find_char(&self.text, start, n, '\n');
            let found = self.line(start, end);
            proof {
                lemma_user_dirs_unfold(rest, self.home@);
                assert(self.text@.subrange(start as int, n as int) =~= rest);
                assert(rest.take(end - start) =~= self.text@.subrange(start as int, end as int));
                if end < n {
                    assert(rest.skip(end - start + 1) =~= self.text@.skip(end as int + 1));
                } else {
                    assert(self.text@.skip(n as int) =~= Seq::<char>::empty());
                    lemma_user_dirs_empty(self.home@);
                }
            }
            self.pos = if end < n {
                end + 1
            } else {
                n
            };
            match found {
                Some(dir) => {
                    assert(old(self).remaining() =~= seq![dir@] + self.remaining());
                    assert(old(self).remaining().drop_first() =~= self.remaining());
                    return Some(dir);
                },
                None => {
                    assert(old(self).remaining() =~= self.remaining());
                },
            }
        }
        proof {
            assert(self.text@.skip(n as int) =~= Seq::<char>::empty());
            lemma_user_dirs_empty(self.home@);
        }
        None
    }

    /// All the directories that are still to come, in order.
    pub fn collect(self) -> (dirs: Vec<UserDir>)
        ensures
            dirs.deep_view() == self.remaining(),
    {
        let mut parser = self;
        let mut dirs: Vec<UserDir> = Vec::new();
        loop
            invariant
                self.remaining() == dirs.deep_view() + parser.remaining(),
            decreases parser.remaining().len(),
        {
            let ghost before = dirs.deep_view();
            match parser.next() {
                Some(dir) => {
                    dirs.push(dir);
                    assert(dirs.deep_view() =~= before.push(dir@));
                },
                None => {
                    assert(parser.remaining() =~= Seq::<UserDirView>::empty());
                    return dirs;
                },
            }
        }
    }
}

} // verus!
