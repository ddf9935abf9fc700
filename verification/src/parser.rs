//! Parsers for the text formats of the freedesktop specifications, and the
//! way back from parsed items to text.

use vstd::prelude::*;

pub mod ini;

verus! {

/// A source of parsed items that can be written back as text.
pub trait UnParser {
    /// The text the items are written as.
    spec fn serialized(&self) -> Seq<char>;

    /// The items as text.
    fn serialize_to_string(&self) -> (s: String)
        ensures
            s@ == self.serialized(),
    ;

    /// The items as the UTF-8 bytes of their text.
    fn serialize_to_bytes(&self) -> (bytes: Vec<u8>)
        ensures
            bytes@ == vstd::utf8::encode_utf8(self.serialized()),
    ;

    /// Writes the UTF-8 bytes of the text over the start of `buf`, whose
    /// length stays as it is. When `buf` is too short it is filled with as
    /// much of the text as fits, and that is an error.
    fn serialize_into_bytes(&self, buf: &mut Vec<u8>) -> (r: Result<(), BufferFull>)
        ensures
            final(buf).len() == old(buf).len(),
            r is Ok <==> vstd::utf8::encode_utf8(self.serialized()).len() <= old(buf).len(),
            r is Ok ==> final(buf)@ == vstd::utf8::encode_utf8(self.serialized()) + old(buf)@.skip(
                vstd::utf8::encode_utf8(self.serialized()).len() as int,
            ),
            r is Err ==> final(buf)@ == vstd::utf8::encode_utf8(self.serialized()).take(
                old(buf).len() as int,
            ),
            r matches Err(e) ==> e.needed == vstd::utf8::encode_utf8(self.serialized()).len(),
    ;
}

/// The buffer handed to [`UnParser::serialize_into_bytes`] was shorter than
/// the text.
#[derive(Debug)]
pub struct BufferFull {
    /// The number of bytes the whole text takes.
    pub needed: usize,
}

/// Writes `bytes` over the start of `buf`, as far as they fit.
pub fn write_over(bytes: &Vec<u8>, buf: &mut Vec<u8>) -> (r: Result<(), BufferFull>)
    ensures
        final(buf).len() == old(buf).len(),
        r is Ok <==> bytes.len() <= old(buf).len(),
        r is Ok ==> final(buf)@ == bytes@ + old(buf)@.skip(bytes.len() as int),
        r is Err ==> final(buf)@ == bytes@.take(old(buf).len() as int),
        r matches Err(e) ==> e.needed == bytes.len(),
{
    let n = if bytes.len() <= buf.len() {
        bytes.len()
    } else {
        buf.len()
    };
    let mut i: usize = 0;
    while i < n
        invariant
            i <= n,
            n <= bytes.len(),
            n <= buf.len(),
            buf.len() == old(buf).len(),
            buf@ == bytes@.take(i as int) + old(buf)@.skip(i as int),
        decreases n - i,
    {
        buf.set(i, bytes[i]);
        i += 1;
        assert(buf@ =~= bytes@.take(i as int) + old(buf)@.skip(i as int));
    }
    if bytes.len() <= buf.len() {
        assert(bytes@.take(n as int) =~= bytes@);
        Ok(())
    } else {
        assert(buf@ =~= bytes@.take(n as int));
        Err(BufferFull { needed: bytes.len() })
    }
}

} // verus!
