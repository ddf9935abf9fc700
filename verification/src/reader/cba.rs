//! Comic book archives: an archive of images, read as the pages of a book.
//!
//! The pages are the entries of the archive that are images by their
//! names, in the order of their names. What kind of file a name or the
//! first bytes of a file point to is asked of `mime_guess` and `infer`.

use crate::text::same_text;
use vstd::prelude::*;
use vstd::string::StrSliceExecFns;

verus! {

/// The media type that `infer::get` finds in the first bytes of a file,
/// or `None` where it knows none.
pub uninterp spec fn sniffed_media_type(header: Seq<u8>) -> Option<Seq<char>>;

/// The type, such as `image` or `text`, of the first media type that
/// `mime_guess::from_path` gives for a file name, or `None` where it gives
/// none.
pub uninterp spec fn guessed_type(name: Seq<char>) -> Option<Seq<char>>;

/// Asks `infer::get` for the type of a file that begins with `header`, and
/// hands back the media type of the answer. The answer depends on the
/// bytes alone: they are held against a fixed list of signatures.
#[verifier::external_body]
fn sniff(header: &[u8]) -> (r: Option<String>)
    ensures
        r.deep_view() == sniffed_media_type(header@),
{
    infer::get(header).map(|kind| kind.mime_type().to_string())
}

/// Asks `mime_guess::from_path` for the media types of a file with the
/// name `name`, and hands back the type of the first. The answer depends
/// on the name alone: its extension is looked up in a fixed table, and
/// nothing is read from disk.
#[verifier::external_body]
fn guess(name: &str) -> (r: Option<String>)
    ensures
        r.deep_view() == guessed_type(name@),
{
    mime_guess::from_path(name).first().map(|mime| mime.type_().as_str().to_string())
}

/// What can go wrong with a comic book archive.
#[derive(Debug)]
pub enum Error {
    /// The type of the file could not be told.
    UnknownFileType,
    /// The file is of this type, which is no archive that can be read.
    InvalidFileType(String),
    /// There is no page with this number.
    IndexOutOfBounds(usize),
}

/// What an [`Error`] holds.
pub enum ErrorView {
    UnknownFileType,
    InvalidFileType(Seq<char>),
    IndexOutOfBounds(usize),
}

impl View for Error {
    type V = ErrorView;

    open spec fn view(&self) -> ErrorView {
        match self {
            Error::UnknownFileType => ErrorView::UnknownFileType,
            Error::InvalidFileType(m) => ErrorView::InvalidFileType(m@),
            Error::IndexOutOfBounds(i) => ErrorView::IndexOutOfBounds(*i),
        }
    }
}

/// Whether a file of the sniffed media type is an archive that can be
/// read: a ZIP archive is, nothing else.
pub open spec fn archive_check(sniffed: Option<Seq<char>>) -> Result<(), ErrorView> {
    match sniffed {
        None => Err(ErrorView::UnknownFileType),
        Some(m) => if m == "application/zip"@ {
            Ok(())
        } else {
            Err(ErrorView::InvalidFileType(m))
        },
    }
}

/// Whether a file name is that of an image: the type that is guessed for
/// it is `image`.
pub open spec fn image_name(name: Seq<char>) -> bool {
    guessed_type(name) == Some("image"@)
}

/// Whether the bytes `a` come before the bytes `b` in the order of a
/// dictionary.
pub open spec fn lex_lt(a: Seq<u8>, b: Seq<u8>) -> bool
    decreases a.len(),
{
    if b.len() == 0 {
        false
    } else if a.len() == 0 {
        true
    } else if a[0] != b[0] {
        a[0] < b[0]
    } else {
        lex_lt(a.drop_first(), b.drop_first())
    }
}

/// Whether entry `i` comes before entry `j` as a page: by its name, and
/// among entries of one name by its place in the archive.
pub open spec fn before(keys: Seq<Seq<u8>>, i: int, j: int) -> bool {
    lex_lt(keys[i], keys[j]) || (keys[i] == keys[j] && i < j)
}

/// Whether `pages` are the entries marked in `images`, each once, in the
/// order of their names `keys`.
pub open spec fn is_page_order(keys: Seq<Seq<u8>>, images: Seq<bool>, pages: Seq<usize>) -> bool {
    &&& forall|k: int| 0 <= k < pages.len() ==> pages[k] < keys.len() && images[pages[k] as int]
    &&& forall|i: int| 0 <= i < keys.len() && images[i] ==> pages.contains(i as usize)
    &&& forall|k: int, l: int|
        0 <= k < l < pages.len() ==> before(keys, pages[k] as int, pages[l] as int)
}

/// The names of the entries as bytes.
pub open spec fn keys_of(names: Seq<Seq<char>>) -> Seq<Seq<u8>> {
    names.map_values(|n: Seq<char>| vstd::utf8::encode_utf8(n))
}

/// Which of the entries are images by their names.
pub open spec fn images_of(names: Seq<Seq<char>>) -> Seq<bool> {
    names.map_values(|n: Seq<char>| image_name(n))
}

/// Of two sequences of bytes one comes before the other, or they are the
/// same.
pub proof fn lemma_lex_total(a: Seq<u8>, b: Seq<u8>)
    ensures
        lex_lt(a, b) || a == b || lex_lt(b, a),
    decreases a.len(),
{
    if a.len() == 0 || b.len() == 0 {
        if a.len() == 0 && b.len() == 0 {
            assert(a =~= b);
        }
    } else if a[0] == b[0] {
        lemma_lex_total(a.drop_first(), b.drop_first());
        if a.drop_first() == b.drop_first() {
            assert(a =~= seq![a[0]] + a.drop_first());
            assert(b =~= seq![b[0]] + b.drop_first());
        }
    }
}

/// The order of the dictionary is transitive.
pub proof fn lemma_lex_trans(a: Seq<u8>, b: Seq<u8>, c: Seq<u8>)
    requires
        lex_lt(a, b),
        lex_lt(b, c),
    ensures
        lex_lt(a, c),
    decreases a.len(),
{
    if a.len() > 0 && a[0] == b[0] && b[0] == c[0] {
        lemma_lex_trans(a.drop_first(), b.drop_first(), c.drop_first());
    }
}

/// Whether a file of the sniffed media type is an archive that can be
/// read.
pub fn check_media_type(sniffed: Option<String>) -> (r: Result<(), Error>)
    ensures
        match r {
            Ok(()) => archive_check(sniffed.deep_view()) is Ok,
            Err(e) => archive_check(sniffed.deep_view()) == Err::<(), ErrorView>(e@),
        },
{
    match sniffed {
        None => Err(Error::UnknownFileType),
        Some(m) => {
            if same_text(m.as_str(), "application/zip") {
                Ok(())
            } else {
                Err(Error::InvalidFileType(m))
            }
        },
    }
}

/// Whether a guessed type is that of an image.
pub fn is_image(guessed: &Option<String>) -> (b: bool)
    ensures
        b == (guessed.deep_view() == Some("image"@)),
{
    match guessed {
        Some(t) => same_text(t.as_str(), "image"),
        None => false,
    }
}

/// The type of file, such as `image` or `text`, that the name of a file
/// points to, if it points to one.
pub fn media_type_of(name: &str) -> (r: Option<String>)
    ensures
        r.deep_view() == guessed_type(name@),
{
    guess(name)
}

/// Whether the bytes `a` come before the bytes `b` in the order of a
/// dictionary.
pub fn bytes_less(a: &Vec<u8>, b: &Vec<u8>) -> (r: bool)
    ensures
        r == lex_lt(a@, b@),
{
    let mut i: usize = 0;
    assert(a@.skip(0) =~= a@ && b@.skip(0) =~= b@);
    while i < a.len() && i < b.len()
        invariant
            i <= a.len(),
            i <= b.len(),
            lex_lt(a@, b@) == lex_lt(a@.skip(i as int), b@.skip(i as int)),
        decreases a.len() - i,
    {
        if a[i] != b[i] {
            return a[i] < b[i];
        }
        assert(a@.skip(i as int).drop_first() =~= a@.skip(i + 1));
        assert(b@.skip(i as int).drop_first() =~= b@.skip(i + 1));
        i += 1;
    }
    i < b.len()
}

/// The entries marked in `images`, in the order of their names `keys`:
/// the pages of the book.
pub fn page_order(keys: &Vec<Vec<u8>>, images: &Vec<bool>) -> (pages: Vec<usize>)
    requires
        keys.len() == images.len(),
    ensures
        is_page_order(keys.deep_view(), images@, pages@),
{
    let ghost ks = keys.deep_view();
    let mut pages: Vec<usize> = Vec::new();
    let mut i: usize = 0;
    while i < keys.len()
        invariant
            i <= keys.len() == images.len(),
            ks == keys.deep_view(),
            forall|k: int| 0 <= k < pages.len() ==> pages[k] < i && images[pages[k] as int],
            forall|j: int| 0 <= j < i && images[j] ==> pages@.contains(j as usize),
            forall|k: int, l: int|
                0 <= k < l < pages.len() ==> before(ks, pages[k] as int, pages[l] as int),
        decreases keys.len() - i,
    {
        if images[i] {
            let mut p: usize = pages.len();
            while p > 0 && bytes_less(&keys[i], &keys[pages[p - 1]])
                invariant
                    p <= pages.len(),
                    i < keys.len(),
                    ks == keys.deep_view(),
                    forall|k: int| 0 <= k < pages.len() ==> pages[k] < i,
                    forall|k: int| p <= k < pages.len() ==> lex_lt(ks[i as int], ks[pages[k] as int]),
                decreases p,
            {
                assert(ks[pages[p - 1] as int] == keys[pages[p - 1] as int]@);
                assert(ks[i as int] == keys[i as int]@);
                p -= 1;
            }
            let ghost old_pages = pages@;
            proof {
                assert(ks[i as int] == keys[i as int]@);
                if p > 0 {
                    let last = old_pages[p - 1] as int;
                    assert(ks[last] == keys[last]@);
                    assert(!lex_lt(ks[i as int], ks[last]));
                    assert forall|k: int| 0 <= k < p implies before(
                        ks,
                        old_pages[k] as int,
                        i as int,
                    ) by {
                        let at = old_pages[k] as int;
                        lemma_lex_total(ks[at], ks[i as int]);
                        if lex_lt(ks[i as int], ks[at]) {
                            if k < p - 1 {
                                assert(before(ks, at, last));
                                if lex_lt(ks[at], ks[last]) {
                                    lemma_lex_trans(ks[i as int], ks[at], ks[last]);
                                }
                            }
                        }
                    }
                }
            }
            pages.insert(p, i);
            proof {
                assert forall|j: int| 0 <= j < i + 1 && images[j] implies pages@.contains(
                    j as usize,
                ) by {
                    if j == i {
                        assert(pages@[p as int] == i);
                    } else {
                        assert(old_pages.contains(j as usize));
                        let k = choose|k: int| 0 <= k < old_pages.len() && old_pages[k] == j as usize;
                        if k < p {
                            assert(pages@[k] == j as usize);
                        } else {
                            assert(pages@[k + 1] == j as usize);
                        }
                    }
                }
                assert forall|k: int, l: int| 0 <= k < l < pages.len() implies before(
                    ks,
                    pages[k] as int,
                    pages[l] as int,
                ) by {
                    if l < p {
                        assert(pages@[k] == old_pages[k] && pages@[l] == old_pages[l]);
                    } else if l == p {
                        assert(pages@[k] == old_pages[k]);
                    } else if k < p {
                        assert(pages@[k] == old_pages[k] && pages@[l] == old_pages[l - 1]);
                    } else if k == p {
                        assert(pages@[l] == old_pages[l - 1]);
                    } else {
                        assert(pages@[k] == old_pages[k - 1] && pages@[l] == old_pages[l - 1]);
                    }
                }
            }
        }
        i += 1;
    }
    pages
}

/// A comic book archive that is being read: its pages and the page that is
/// open.
#[derive(Debug)]
pub struct CBAReader {
    /// The entries of the archive that are pages, in the order of the
    /// pages.
    indices: Vec<usize>,
    position: usize,
}

impl CBAReader {
    /// The entries of the archive that are pages, in the order of the
    /// pages.
    pub closed spec fn pages(&self) -> Seq<usize> {
        self.indices@
    }

    /// The number of the page that is open.
    pub closed spec fn position(&self) -> usize {
        self.position
    }

    /// Opens an archive that begins with the bytes `header` and holds
    /// entries with the names `names`. The archive has to be a ZIP
    /// archive. Its pages are the entries that are images by their names,
    /// in the order of their names, and the first page is open.
    pub fn read(header: &[u8], names: &Vec<String>) -> (r: Result<CBAReader, Error>)
        ensures
            match r {
                Ok(reader) => archive_check(sniffed_media_type(header@)) is Ok && reader.position()
                    == 0 && is_page_order(
                    keys_of(names.deep_view()),
                    images_of(names.deep_view()),
                    reader.pages(),
                ),
                Err(e) => archive_check(sniffed_media_type(header@)) == Err::<(), ErrorView>(e@),
            },
    {
        match check_media_type(sniff(header)) {
            Err(e) => { return Err(e); },
            Ok(()) => {},
        }
        let mut keys: Vec<Vec<u8>> = Vec::new();
        let mut images: Vec<bool> = Vec::new();
        let mut i: usize = 0;
        while i < names.len()
            invariant
                i <= names.len(),
                keys.len() == i,
                images.len() == i,
                keys.deep_view() == keys_of(names.deep_view()).take(i as int),
                images@ == images_of(names.deep_view()).take(i as int),
            decreases names.len() - i,
        {
            let ghost kb = keys.deep_view();
            let name = names[i].as_str();
            assert(name@ == names.deep_view()[i as int]);
            let image = is_image(&guess(name));
            let key = name.as_bytes_vec();
            assert(key.deep_view() =~= key@);
            keys.push(key);
            images.push(image);
            assert(keys.deep_view() =~= kb.push(key@));
            i += 1;
            assert(keys.deep_view() =~= keys_of(names.deep_view()).take(i as int));
            assert(images@ =~= images_of(names.deep_view()).take(i as int));
        }
        assert(keys_of(names.deep_view()).take(i as int) =~= keys_of(names.deep_view()));
        assert(images_of(names.deep_view()).take(i as int) =~= images_of(names.deep_view()));
        Ok(CBAReader { indices: page_order(&keys, &images), position: 0 })
    }

    /// The number of pages.
    pub fn page_count(&self) -> (n: usize)
        ensures
            n == self.pages().len(),
    {
        self.indices.len()
    }

    /// The number of the page that is open.
    pub fn get_current_page(&self) -> (n: usize)
        ensures
            n == self.position(),
    {
        self.position
    }

    /// Opens the page `pos` and hands back the number of the page that was
    /// open. Where there is no page `pos`, nothing changes.
    pub fn set_current_page(&mut self, pos: usize) -> (r: Option<usize>)
        ensures
            final(self).pages() == old(self).pages(),
            pos < old(self).pages().len() ==> r == Some(old(self).position())
                && final(self).position() == pos,
            pos >= old(self).pages().len() ==> r is None
                && final(self).position() == old(self).position(),
    {
        if pos >= self.indices.len() {
            return None;
        }
        let old = self.position;
        self.position = pos;
        Some(old)
    }

    /// The entry of the archive that is page `pos`.
    pub fn page(&self, pos: usize) -> (r: Result<usize, Error>)
        ensures
            r == if pos < self.pages().len() {
                Ok::<usize, Error>(self.pages()[pos as int])
            } else {
                Err::<usize, Error>(Error::IndexOutOfBounds(pos))
            },
    {
        if pos < self.indices.len() {
            Ok(self.indices[pos])
        } else {
            Err(Error::IndexOutOfBounds(pos))
        }
    }
}

} // verus!
