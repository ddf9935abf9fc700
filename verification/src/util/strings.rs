//! Helpers on strings: joining, padding and the edit distance.

use crate::text::chars_of;
use vstd::prelude::*;
use vstd::string::StringExecFns;

verus! {

/// `s` padded on the right with `padding` up to `length` characters. A
/// string that is long enough stays as it is, and so does any string when
/// the padding is the character zero.
pub open spec fn justified(s: Seq<char>, padding: char, length: nat) -> Seq<char> {
    if s.len() >= length || padding == '\0' {
        s
    } else {
        s + Seq::new((length - s.len()) as nat, |i: int| padding)
    }
}

/// The least of three numbers.
pub open spec fn min3(x: nat, y: nat, z: nat) -> nat {
    if x <= y && x <= z {
        x
    } else if y <= z {
        y
    } else {
        z
    }
}

/// The Levenshtein distance of `a` and `b`: the least number of
/// characters to insert, delete or replace that turns the one into the
/// other.
pub open spec fn levenshtein(a: Seq<char>, b: Seq<char>) -> nat
    decreases a.len() + b.len(),
{
    if a.len() == 0 {
        b.len()
    } else if b.len() == 0 {
        a.len()
    } else {
        min3(
            levenshtein(a.drop_last(), b) + 1,
            levenshtein(a, b.drop_last()) + 1,
            levenshtein(a.drop_last(), b.drop_last()) + if a.last() == b.last() {
                0nat
            } else {
                1nat
            },
        )
    }
}

/// One character more on the left side changes the distance by one at
/// most, upwards.
pub proof fn lemma_levenshtein_longer_left(a: Seq<char>, b: Seq<char>)
    requires
        a.len() > 0,
    ensures
        levenshtein(a, b) <= levenshtein(a.drop_last(), b) + 1,
{
}

/// One character more on the right side changes the distance by one at
/// most, upwards.
pub proof fn lemma_levenshtein_longer_right(a: Seq<char>, b: Seq<char>)
    requires
        b.len() > 0,
    ensures
        levenshtein(a, b) <= levenshtein(a, b.drop_last()) + 1,
{
}

/// One character less on the right side changes the distance by one at
/// most, upwards.
pub proof fn lemma_levenshtein_shorter_right(a: Seq<char>, b: Seq<char>)
    requires
        b.len() > 0,
    ensures
        levenshtein(a, b.drop_last()) <= levenshtein(a, b) + 1,
    decreases a.len() + b.len(),
{
    if a.len() > 0 {
        lemma_levenshtein_shorter_right(a.drop_last(), b);
        lemma_levenshtein_longer_left(a, b.drop_last());
    }
}

/// One character less on the left side changes the distance by one at
/// most, upwards.
pub proof fn lemma_levenshtein_shorter_left(a: Seq<char>, b: Seq<char>)
    requires
        a.len() > 0,
    ensures
        levenshtein(a.drop_last(), b) <= levenshtein(a, b) + 1,
    decreases a.len() + b.len(),
{
    if b.len() > 0 {
        lemma_levenshtein_shorter_left(a, b.drop_last());
        lemma_levenshtein_longer_right(a.drop_last(), b);
    }
}

/// Two strings that end with the same character are as far apart as they
/// are without it.
pub proof fn lemma_levenshtein_same_last(a: Seq<char>, b: Seq<char>)
    requires
        a.len() > 0,
        b.len() > 0,
        a.last() == b.last(),
    ensures
        levenshtein(a, b) == levenshtein(a.drop_last(), b.drop_last()),
{
    lemma_levenshtein_shorter_right(a.drop_last(), b);
    lemma_levenshtein_shorter_left(a, b.drop_last());
}

/// The distance is at most the length of the longer string.
pub proof fn lemma_levenshtein_bound(a: Seq<char>, b: Seq<char>)
    ensures
        levenshtein(a, b) <= a.len() || levenshtein(a, b) <= b.len(),
    decreases a.len() + b.len(),
{
    if a.len() > 0 && b.len() > 0 {
        lemma_levenshtein_bound(a.drop_last(), b.drop_last());
    }
}

/// `a` followed by `b`.
pub fn concat(a: &str, b: &str) -> (r: String)
    ensures
        r@ == a@ + b@,
{
    let mut new = String::from_str(a);
    new.append(b);
    new
}

/// `s` padded on the right with `padding` up to `length` characters.
pub fn left_justify(s: &str, padding: char, length: usize) -> (r: String)
    ensures
        r@ == justified(s@, padding, length as nat),
{
    let n = s.unicode_len();
    let mut r = String::from_str(s);
    if n >= length || padding == '\0' {
        return r;
    }
    let mut i: usize = n;
    while i < length
        invariant
            n <= i <= length,
            n == s@.len(),
            r@ == s@ + Seq::new((i - n) as nat, |k: int| padding),
        decreases length - i,
    {
        r.push(padding);
        i += 1;
        assert(r@ =~= s@ + Seq::new((i - n) as nat, |k: int| padding));
    }
    r
}

/// The Levenshtein distance of `a` and `b`, computed row by row over a
/// single row of costs.
pub fn levenshtein_distance(a: &str, b: &str) -> (d: usize)
    ensures
        d == levenshtein(a@, b@),
{
    let a = chars_of(a);
    let b = chars_of(b);
    let m = a.len();
    let n = b.len();
    if m == 0 {
        return n;
    }
    if n == 0 {
        return m;
    }
    let mut costs: Vec<usize> = Vec::new();
    costs.push(0);
    let mut k: usize = 0;
    while k < n
        invariant
            k <= n,
            costs.len() == k + 1,
            forall|j: int| 0 <= j <= k ==> costs[j] == j,
        decreases n - k,
    {
        k += 1;
        costs.push(k);
    }
    assert forall|j: int| 0 <= j <= n implies costs[j] == levenshtein(
        a@.take(0),
        b@.take(j),
    ) by {}
    let mut i: usize = 0;
    while i < m
        invariant
            i <= m == a.len(),
            n == b.len(),
            costs.len() == n + 1,
            forall|j: int| 0 <= j <= n ==> costs[j] == levenshtein(a@.take(i as int), b@.take(j)),
        decreases m - i,
    {
        let ghost above = a@.take(i as int);
        let ghost row = a@.take(i + 1);
        assert(row.drop_last() =~= above);
        assert(row.last() == a@[i as int]);
        let c1 = a[i];
        let mut corner: usize = i;
        assert(b@.take(0).len() == 0);
        costs.set(0, i + 1);
        let mut j: usize = 0;
        while j < n
            invariant
                j <= n == b.len(),
                i < m == a.len(),
                costs.len() == n + 1,
                above == a@.take(i as int),
                row == a@.take(i + 1),
                row.drop_last() == above,
                row.last() == c1,
                corner == levenshtein(above, b@.take(j as int)),
                forall|t: int| 0 <= t <= j ==> costs[t] == levenshtein(row, b@.take(t)),
                forall|t: int| j < t <= n ==> costs[t] == levenshtein(above, b@.take(t)),
            decreases n - j,
        {
            let ghost left = b@.take(j as int);
            let ghost here = b@.take(j + 1);
            assert(here.drop_last() =~= left);
            assert(here.last() == b@[j as int]);
            proof {
                lemma_levenshtein_bound(row, here);
            }
            let c2 = b[j];
            let upper = costs[j + 1];
            if c1 == c2 {
                proof {
                    lemma_levenshtein_same_last(row, here);
                }
                costs.set(j + 1, corner);
            } else {
                let t = if upper < corner {
                    upper
                } else {
                    corner
                };
                let least = if costs[j] < t {
                    costs[j]
                } else {
                    t
                };
                assert(least + 1 == levenshtein(row, here));
                costs.set(j + 1, least + 1);
            }
            corner = upper;
            j += 1;
        }
        i += 1;
    }
    assert(a@.take(m as int) =~= a@);
    assert(b@.take(n as int) =~= b@);
    costs[n]
}

/// Helpers that every string has.
pub trait StringUtil {
    /// The characters of the string.
    spec fn text(&self) -> Seq<char>;

    /// This string followed by `other`.
    fn concat(&self, other: &Self) -> (r: String)
        ensures
            r@ == self.text() + other.text(),
    ;

    /// This string within a field of `length` characters, filled up on
    /// the right with `padding`.
    fn left_justify(&self, padding: char, length: usize) -> (r: String)
        ensures
            r@ == justified(self.text(), padding, length as nat),
    ;

    /// The Levenshtein distance between this string and `other`.
    fn levenshtein_distance(&self, other: &Self) -> (d: usize)
        ensures
            d == levenshtein(self.text(), other.text()),
    ;
}

impl StringUtil for str {
    open spec fn text(&self) -> Seq<char> {
        self@
    }

    fn concat(&self, other: &Self) -> (r: String) {
        self::concat(self, other)
    }

    fn left_justify(&self, padding: char, length: usize) -> (r: String) {
        self::left_justify(self, padding, length)
    }

    fn levenshtein_distance(&self, other: &Self) -> (d: usize) {
        self::levenshtein_distance(self, other)
    }
}

impl StringUtil for String {
    open spec fn text(&self) -> Seq<char> {
        self@
    }

    fn concat(&self, other: &Self) -> (r: String) {
        self::concat(self.as_str(), other.as_str())
    }

    fn left_justify(&self, padding: char, length: usize) -> (r: String) {
        self::left_justify(self.as_str(), padding, length)
    }

    fn levenshtein_distance(&self, other: &Self) -> (d: usize) {
        self::levenshtein_distance(self.as_str(), other.as_str())
    }
}

} // verus!
