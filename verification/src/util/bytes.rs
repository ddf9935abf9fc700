//! Paths as bytes: how long a path is, and where in it a pattern stands.

use crate::util::path::Path;
use vstd::prelude::*;
use vstd::string::StringExecFns;

verus! {

/// Whether the bytes `pat` stand in `hay` at position `i`.
pub open spec fn occurs_at(hay: Seq<u8>, pat: Seq<u8>, i: int) -> bool {
    0 <= i && i + pat.len() <= hay.len() && hay.subrange(i, i + pat.len()) == pat
}

/// The first position at which `pat` stands in `hay`, if it stands in it.
pub open spec fn first_occurrence(hay: Seq<u8>, pat: Seq<u8>, r: Option<usize>) -> bool {
    match r {
        Some(i) => occurs_at(hay, pat, i as int) && forall|j: int|
            0 <= j < i ==> !occurs_at(hay, pat, j),
        None => forall|j: int| !occurs_at(hay, pat, j),
    }
}

/// All of `parts` put together, one after the other.
pub open spec fn all_of(parts: Seq<Seq<char>>) -> Seq<char> {
    parts.flatten()
}

/// Whether `pat` stands in `hay` at position `i`.
fn stands_at(hay: &[u8], pat: &[u8], i: usize) -> (b: bool)
    requires
        i + pat.len() <= hay.len(),
    ensures
        b == occurs_at(hay@, pat@, i as int),
{
    let ghost window = hay@.subrange(i as int, i + pat.len());
    let mut k: usize = 0;
    while k < pat.len()
        invariant
            k <= pat.len(),
            i + pat.len() <= hay.len(),
            window == hay@.subrange(i as int, i + pat.len()),
            forall|t: int| 0 <= t < k ==> window[t] == pat@[t],
        decreases pat.len() - k,
    {
        if hay[i + k] != pat[k] {
            assert(window[k as int] != pat@[k as int]);
            return false;
        }
        k += 1;
    }
    assert(window =~= pat@);
    true
}

/// The first position at which the bytes `pat` stand in `hay`.
pub fn find_bytes(hay: &[u8], pat: &[u8]) -> (r: Option<usize>)
    requires
        pat@.len() > 0,
    ensures
        first_occurrence(hay@, pat@, r),
{
    if pat.len() > hay.len() {
        return None;
    }
    let last = hay.len() - pat.len();
    let mut i: usize = 0;
    while i <= last
        invariant
            i <= last + 1,
            pat@.len() > 0,
            last == hay.len() - pat.len(),
            forall|j: int| 0 <= j < i ==> !occurs_at(hay@, pat@, j),
        decreases last + 1 - i,
    {
        if stands_at(hay, pat, i) {
            return Some(i);
        }
        i += 1;
    }
    None
}

/// What a path can be asked as a string of bytes.
pub trait PathUtil {
    /// The path as text.
    spec fn text(&self) -> Seq<char>;

    /// The length of the path in bytes.
    fn len(&self) -> (n: usize)
        ensures
            n == vstd::utf8::encode_utf8(self.text()).len(),
    ;

    /// The length of the path in bytes.
    fn len_bytes(&self) -> (n: usize)
        ensures
            n == vstd::utf8::encode_utf8(self.text()).len(),
    ;

    /// The first position, in bytes, at which `pat` stands in the path.
    fn find(&self, pat: &str) -> (r: Option<usize>)
        requires
            pat@.len() > 0,
        ensures
            first_occurrence(
                vstd::utf8::encode_utf8(self.text()),
                vstd::utf8::encode_utf8(pat@),
                r,
            ),
    ;

    /// Whether `pat` stands in the path.
    fn contains(&self, pat: &str) -> (b: bool)
        requires
            pat@.len() > 0,
        ensures
            b == exists|j: int|
                occurs_at(
                    vstd::utf8::encode_utf8(self.text()),
                    vstd::utf8::encode_utf8(pat@),
                    j,
                ),
    ;

    /// The path with all of `strs` after it, nothing put between them.
    fn raw_concat(&self, strs: &Vec<String>) -> (r: String)
        ensures
            r@ == self.text() + all_of(strs.deep_view()),
    ;
}

impl PathUtil for Path {
    open spec fn text(&self) -> Seq<char> {
        self@
    }

    fn len(&self) -> (n: usize) {
        self.as_str().as_bytes().len()
    }

    fn len_bytes(&self) -> (n: usize) {
        self.as_str().as_bytes().len()
    }

    fn find(&self, pat: &str) -> (r: Option<usize>) {
        proof {
            vstd::utf8::encode_utf8_first_scalar(pat@);
        }
        find_bytes(self.as_str().as_bytes(), pat.as_bytes())
    }

    fn contains(&self, pat: &str) -> (b: bool) {
        let r = PathUtil::find(self, pat);
        proof {
            if r is Some {
                assert(occurs_at(
                    vstd::utf8::encode_utf8(self@),
                    vstd::utf8::encode_utf8(pat@),
                    r->0 as int,
                ));
            }
        }
        r.is_some()
    }

    fn raw_concat(&self, strs: &Vec<String>) -> (r: String) {
        let mut r = String::from_str(self.as_str());
        let mut i: usize = 0;
        assert(strs.deep_view().take(0).flatten() =~= Seq::<char>::empty());
        assert(r@ =~= self@ + all_of(strs.deep_view().take(0)));
        while i < strs.len()
            invariant
                i <= strs.len(),
                r@ == self@ + all_of(strs.deep_view().take(i as int)),
            decreases strs.len() - i,
        {
            proof {
                strs.deep_view().take(i as int).lemma_flatten_push(strs[i as int]@);
                assert(strs.deep_view().take(i as int).push(strs[i as int]@)
                    =~= strs.deep_view().take(i + 1));
            }
            r.append(strs[i].as_str());
            i += 1;
            assert(r@ =~= self@ + all_of(strs.deep_view().take(i as int)));
        }
        assert(strs.deep_view().take(i as int) =~= strs.deep_view());
        r
    }
}

} // verus!
