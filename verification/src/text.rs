//! Character sequences: the model of all text in this crate, and the
//! executable helpers that move between `str`, `String` and `Vec<char>`.
//!
//! Every specification speaks of `Seq<char>`, the view of `str` and
//! `String`. Executable code scans a `Vec<char>` by index and builds the
//! strings it hands out character by character.

use vstd::prelude::*;

verus! {

/// `String::push` appends one character to the end of the string.
pub assume_specification[ String::push ](s: &mut String, c: char)
    ensures
        final(s)@ == old(s)@.push(c),
;

/// Two string slices are equal when they hold the same characters.
pub assume_specification[ <str as PartialEq>::eq ](a: &str, b: &str) -> (r: bool)
    ensures
        r == (a@ == b@),
;

/// Whether `a` and `b` hold the same characters.
pub fn same_text(a: &str, b: &str) -> (r: bool)
    ensures
        r == (a@ == b@),
{
    *a == *b
}

/// Whether `c` has the Unicode property `White_Space`.
pub open spec fn is_whitespace(c: char) -> bool {
    let n = c as u32;
    ||| 0x09 <= n <= 0x0D
    ||| n == 0x20
    ||| n == 0x85
    ||| n == 0xA0
    ||| n == 0x1680
    ||| 0x2000 <= n <= 0x200A
    ||| n == 0x2028
    ||| n == 0x2029
    ||| n == 0x202F
    ||| n == 0x205F
    ||| n == 0x3000
}

/// `s` without its leading whitespace.
pub open spec fn trim_start(s: Seq<char>) -> Seq<char>
    decreases s.len(),
{
    if s.len() > 0 && is_whitespace(s[0]) {
        trim_start(s.drop_first())
    } else {
        s
    }
}

/// `s` without its trailing whitespace.
pub open spec fn trim_end(s: Seq<char>) -> Seq<char>
    decreases s.len(),
{
    if s.len() > 0 && is_whitespace(s.last()) {
        trim_end(s.drop_last())
    } else {
        s
    }
}

/// `s` without leading and trailing whitespace.
pub open spec fn trim(s: Seq<char>) -> Seq<char> {
    trim_end(trim_start(s))
}

/// The position of the first `c` in `s`, or `s.len()` when `s` holds none.
pub open spec fn index_of(s: Seq<char>, c: char) -> int
    decreases s.len(),
{
    if s.len() == 0 || s[0] == c {
        0
    } else {
        1 + index_of(s.drop_first(), c)
    }
}

/// The pieces of `s` between the occurrences of `sep`. There is always at
/// least one piece; `n` separators give `n + 1` pieces, empty ones included.
pub open spec fn split(s: Seq<char>, sep: char) -> Seq<Seq<char>>
    decreases s.len(),
{
    let i = index_of(s, sep);
    if 0 <= i < s.len() {
        seq![s.take(i)] + split(s.skip(i + 1), sep)
    } else {
        seq![s]
    }
}

/// Whether `t` holds at least one character.
pub open spec fn is_nonempty(t: Seq<char>) -> bool {
    t.len() > 0
}

/// The pieces of `s` between the occurrences of `sep`, each trimmed, the
/// empty ones dropped.
pub open spec fn tokens(s: Seq<char>, sep: char) -> Seq<Seq<char>> {
    split(s, sep).map_values(|p: Seq<char>| trim(p)).filter(|t: Seq<char>| is_nonempty(t))
}

/// `c` with the letters `A` to `Z` mapped to `a` to `z`.
pub open spec fn ascii_lower(c: char) -> char {
    if 'A' <= c <= 'Z' {
        ((c as u8) + 32) as u8 as char
    } else {
        c
    }
}

/// `s` with every character mapped by [`ascii_lower`].
pub open spec fn to_ascii_lowercase(s: Seq<char>) -> Seq<char> {
    s.map_values(|c: char| ascii_lower(c))
}

/// Whether `s` begins with the characters of `prefix`.
pub open spec fn starts_with(s: Seq<char>, prefix: Seq<char>) -> bool {
    prefix.len() <= s.len() && s.take(prefix.len() as int) == prefix
}

/// Whether `s` ends with the characters of `suffix`.
pub open spec fn ends_with(s: Seq<char>, suffix: Seq<char>) -> bool {
    suffix.len() <= s.len() && s.skip(s.len() - suffix.len()) == suffix
}

/// `rel` adjoined to the directory `base`: an absolute `rel` replaces
/// `base`; otherwise the two are put together with exactly one `/` between
/// them, unless `base` is empty or already ends with one.
pub open spec fn join(base: Seq<char>, rel: Seq<char>) -> Seq<char> {
    if rel.len() > 0 && rel[0] == '/' {
        rel
    } else if base.len() == 0 || base.last() == '/' {
        base + rel
    } else {
        base + seq!['/'] + rel
    }
}

/// [`index_of`] is within bounds, no earlier position holds `c`, and the
/// position itself does unless it is the length.
pub proof fn lemma_index_of(s: Seq<char>, c: char)
    ensures
        0 <= index_of(s, c) <= s.len(),
        forall|j: int| 0 <= j < index_of(s, c) ==> s[j] != c,
        index_of(s, c) < s.len() ==> s[index_of(s, c)] == c,
    decreases s.len(),
{
    if s.len() == 0 || s[0] == c {
    } else {
        lemma_index_of(s.drop_first(), c);
        assert forall|j: int| 0 <= j < index_of(s, c) implies s[j] != c by {
            if j > 0 {
                assert(s.drop_first()[j - 1] == s[j]);
            }
        }
    }
}

/// A position that no `c` precedes, and that holds `c` or is the length, is
/// the one [`index_of`] gives.
pub proof fn lemma_index_of_is(s: Seq<char>, c: char, i: int)
    requires
        0 <= i <= s.len(),
        forall|j: int| 0 <= j < i ==> s[j] != c,
        i < s.len() ==> s[i] == c,
    ensures
        index_of(s, c) == i,
    decreases s.len(),
{
    if s.len() == 0 {
    } else if s[0] == c {
        if i > 0 {
            assert(s[0] != c);
        }
    } else {
        assert forall|j: int| 0 <= j < i - 1 implies s.drop_first()[j] != c by {
            assert(s.drop_first()[j] == s[j + 1]);
        }
        lemma_index_of_is(s.drop_first(), c, i - 1);
    }
}

/// A sequence that is empty, or that neither begins nor ends with
/// whitespace, is its own trimming.
pub proof fn lemma_trim_fixed(s: Seq<char>)
    requires
        s.len() > 0 ==> !is_whitespace(s[0]) && !is_whitespace(s.last()),
    ensures
        trim(s) == s,
{
}

/// What is left after trimming at the start is the end of the sequence,
/// and begins with no whitespace.
pub proof fn lemma_trim_start(s: Seq<char>)
    ensures
        trim_start(s).len() <= s.len(),
        trim_start(s) == s.skip(s.len() - trim_start(s).len()),
        trim_start(s).len() > 0 ==> !is_whitespace(trim_start(s)[0]),
    decreases s.len(),
{
    if s.len() > 0 && is_whitespace(s[0]) {
        lemma_trim_start(s.drop_first());
        let k = s.len() - trim_start(s).len();
        assert(s.drop_first().skip(k - 1) =~= s.skip(k));
    } else {
        assert(s.skip(0) =~= s);
    }
}

/// What is left after trimming at the end is the start of the sequence,
/// and ends with no whitespace.
pub proof fn lemma_trim_end(s: Seq<char>)
    ensures
        trim_end(s).len() <= s.len(),
        trim_end(s) == s.take(trim_end(s).len() as int),
        trim_end(s).len() > 0 ==> !is_whitespace(trim_end(s).last()),
    decreases s.len(),
{
    if s.len() > 0 && is_whitespace(s.last()) {
        lemma_trim_end(s.drop_last());
        assert(s.drop_last().take(trim_end(s).len() as int) =~= s.take(trim_end(s).len() as int));
    } else {
        assert(s.take(s.len() as int) =~= s);
    }
}

/// A trimmed sequence is a piece of the sequence that neither begins nor
/// ends with whitespace.
pub proof fn lemma_trim(s: Seq<char>)
    ensures
        trim(s).len() > 0 ==> !is_whitespace(trim(s)[0]) && !is_whitespace(trim(s).last()),
        forall|i: int| 0 <= i < trim(s).len() ==> s.contains(#[trigger] trim(s)[i]),
{
    lemma_trim_start(s);
    lemma_trim_end(trim_start(s));
    let a = s.len() - trim_start(s).len();
    assert forall|i: int| 0 <= i < trim(s).len() implies s.contains(#[trigger] trim(s)[i]) by {
        assert(trim(s)[i] == s[a + i]);
    }
    if trim(s).len() > 0 {
        assert(trim(s)[0] == trim_start(s)[0]);
    }
}

/// How [`tokens`] unfolds at the first separator.
pub proof fn lemma_tokens_unfold(s: Seq<char>, sep: char)
    ensures
        tokens(s, sep) == {
            let i = index_of(s, sep);
            let head = trim(s.take(i));
            let first = if head.len() > 0 {
                seq![head]
            } else {
                Seq::empty()
            };
            if i < s.len() {
                first + tokens(s.skip(i + 1), sep)
            } else {
                first
            }
        },
{
    lemma_index_of(s, sep);
    let i = index_of(s, sep);
    let head = s.take(i);
    let one = seq![head];
    let m = |p: Seq<char>| trim(p);
    let f = |t: Seq<char>| is_nonempty(t);
    reveal_with_fuel(Seq::filter, 2);
    assert(one.map_values(m) =~= seq![trim(head)]);
    assert(seq![trim(head)].drop_last() =~= Seq::<Seq<char>>::empty());
    let first = if trim(head).len() > 0 {
        seq![trim(head)]
    } else {
        Seq::empty()
    };
    assert(seq![trim(head)].filter(f) =~= first);
    if i < s.len() {
        let rest = split(s.skip(i + 1), sep);
        assert(split(s, sep) == one + rest);
        assert((one + rest).map_values(m) =~= one.map_values(m) + rest.map_values(m));
        Seq::filter_distributes_over_add(one.map_values(m), rest.map_values(m), f);
    } else {
        assert(s.take(i) =~= s);
        assert(split(s, sep) == seq![s]);
    }
}

/// Whether `c` has the Unicode property `White_Space`.
pub fn char_is_whitespace(c: char) -> (b: bool)
    ensures
        b == is_whitespace(c),
{
    let n: u32 = c as u32;
    (0x09 <= n && n <= 0x0D) || n == 0x20 || n == 0x85 || n == 0xA0 || n == 0x1680 || (0x2000 <= n
        && n <= 0x200A) || n == 0x2028 || n == 0x2029 || n == 0x202F || n == 0x205F || n == 0x3000
}

/// `c` with the letters `A` to `Z` mapped to `a` to `z`.
pub fn char_ascii_lower(c: char) -> (l: char)
    ensures
        l == ascii_lower(c),
{
    if 'A' <= c && c <= 'Z' {
        ((c as u8) + 32) as char
    } else {
        c
    }
}

/// The characters of `s`, in order.
pub fn chars_of(s: &str) -> (v: Vec<char>)
    ensures
        v@ == s@,
{
    let mut v: Vec<char> = Vec::new();
    for c in it: s.chars()
        invariant
            v@ == it.seq().take(it.index()),
            it.seq() == s@,
    {
        v.push(c);
    }
    v
}

/// The characters `v[lo..hi]` as a string.
pub fn string_of(v: &Vec<char>, lo: usize, hi: usize) -> (s: String)
    requires
        lo <= hi <= v.len(),
    ensures
        s@ == v@.subrange(lo as int, hi as int),
{
    let mut s = String::new();
    let mut i: usize = lo;
    while i < hi
        invariant
            lo <= i <= hi <= v.len(),
            s@ == v@.subrange(lo as int, i as int),
        decreases hi - i,
    {
        s.push(v[i]);
        i += 1;
    }
    s
}

/// The position of the first `c` in `v[lo..hi]`, or `hi` when there is none.
pub fn find_char(v: &Vec<char>, lo: usize, hi: usize, c: char) -> (i: usize)
    requires
        lo <= hi <= v.len(),
    ensures
        lo <= i <= hi,
        i - lo == index_of(v@.subrange(lo as int, hi as int), c),
{
    let mut i: usize = lo;
    while i < hi && v[i] != c
        invariant
            lo <= i <= hi <= v.len(),
            forall|j: int| lo <= j < i ==> v@[j] != c,
        decreases hi - i,
    {
        i += 1;
    }
    proof {
        lemma_index_of_is(v@.subrange(lo as int, hi as int), c, i - lo);
    }
    i
}

/// The bounds of `v[lo..hi]` without its leading and trailing whitespace.
pub fn trim_range(v: &Vec<char>, lo: usize, hi: usize) -> (r: (usize, usize))
    requires
        lo <= hi <= v.len(),
    ensures
        lo <= r.0 <= r.1 <= hi,
        v@.subrange(r.0 as int, r.1 as int) == trim(v@.subrange(lo as int, hi as int)),
{
    let mut a: usize = lo;
    while a < hi && char_is_whitespace(v[a])
        invariant
            lo <= a <= hi <= v.len(),
            trim_start(v@.subrange(lo as int, hi as int)) == trim_start(
                v@.subrange(a as int, hi as int),
            ),
        decreases hi - a,
    {
        assert(v@.subrange(a as int, hi as int).drop_first() =~= v@.subrange(
            a as int + 1,
            hi as int,
        ));
        a += 1;
    }
    let mut b: usize = hi;
    while a < b && char_is_whitespace(v[b - 1])
        invariant
            lo <= a <= b <= hi <= v.len(),
            trim_end(v@.subrange(a as int, hi as int)) == trim_end(
                v@.subrange(a as int, b as int),
            ),
        decreases b - a,
    {
        assert(v@.subrange(a as int, b as int).drop_last() =~= v@.subrange(
            a as int,
            b as int - 1,
        ));
        b -= 1;
    }
    (a, b)
}

/// The pieces of `v[lo..hi]` between the occurrences of `sep`, each trimmed,
/// the empty ones dropped.
pub fn split_tokens(v: &Vec<char>, lo: usize, hi: usize, sep: char) -> (out: Vec<String>)
    requires
        lo <= hi <= v.len(),
    ensures
        out.deep_view() == tokens(v@.subrange(lo as int, hi as int), sep),
{
    let mut out: Vec<String> = Vec::new();
    let mut pos: usize = lo;
    let mut done = false;
    while !done
        invariant
            lo <= pos <= hi <= v.len(),
            !done ==> tokens(v@.subrange(lo as int, hi as int), sep) == out.deep_view() + tokens(
                v@.subrange(pos as int, hi as int),
                sep,
            ),
            done ==> tokens(v@.subrange(lo as int, hi as int), sep) == out.deep_view(),
        decreases hi - pos + (if done { 0int } else { 1int }),
    {
        let ghost rest = v@.subrange(pos as int, hi as int);
        let ghost before = out.deep_view();
        let end = find_char(v, pos, hi, sep);
        let (a, b) = trim_range(v, pos, end);
        proof {
            lemma_tokens_unfold(rest, sep);
            assert(rest.take(end - pos) =~= v@.subrange(pos as int, end as int));
        }
        if a < b {
            let piece = string_of(v, a, b);
            out.push(piece);
            assert(out.deep_view() =~= before + seq![piece@]);
        }
        if end < hi {
            assert(rest.skip(end - pos + 1) =~= v@.subrange(end as int + 1, hi as int));
            pos = end + 1;
        } else {
            done = true;
        }
    }
    out
}

/// The pieces of `s` between the occurrences of `sep`, each trimmed, the
/// empty ones dropped.
pub fn tokens_of(s: &str, sep: char) -> (out: Vec<String>)
    ensures
        out.deep_view() == tokens(s@, sep),
{
    let v = chars_of(s);
    assert(v@.subrange(0, v.len() as int) =~= v@);
    split_tokens(&v, 0, v.len(), sep)
}

/// `s` with the letters `A` to `Z` mapped to `a` to `z`.
pub fn ascii_lowercase_of(s: &str) -> (out: String)
    ensures
        out@ == to_ascii_lowercase(s@),
{
    let mut out = String::new();
    for c in it: s.chars()
        invariant
            out@ == to_ascii_lowercase(it.seq().take(it.index())),
            it.seq() == s@,
    {
        assert(it.seq().take(it.index() + 1) =~= it.seq().take(it.index()).push(c));
        out.push(char_ascii_lower(c));
        assert(out@ =~= to_ascii_lowercase(it.seq().take(it.index() + 1)));
    }
    out
}

/// `rel` adjoined to the directory `base`: an absolute `rel` replaces
/// `base`; otherwise the two are put together with exactly one `/` between
/// them, unless `base` is empty or already ends with one.
pub fn join_path(base: &str, rel: &str) -> (out: String)
    ensures
        out@ == join(base@, rel@),
{
    if !rel.is_empty() && rel.get_char(0) == '/' {
        return String::from_str(rel);
    }
    let mut out = String::from_str(base);
    let n = base.unicode_len();
    if n > 0 && base.get_char(n - 1) != '/' {
        out.push('/');
    }
    out.append(rel);
    out
}

} // verus!
