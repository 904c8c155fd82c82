//! The byte sources that partition tables are read from.

use vstd::prelude::*;

use crate::errors::Error;

verus! {

/// A source that can be read at any offset.
///
/// The contracts speak of the bytes that the source holds. Verus checks the
/// implementations in this crate against them; of one written elsewhere they
/// are assumed, with `contents` left as it is here.
pub trait ReadAt {
    /// The bytes that the source holds.
    open spec fn contents(&self) -> Seq<u8> {
        arbitrary()
    }

    /// Fills `buf` with the bytes that start at offset `pos`.
    fn read_exact_at(&self, pos: u64, buf: &mut [u8]) -> (done: Result<(), Error>)
        ensures
            final(buf)@.len() == old(buf)@.len(),
            match done {
                Ok(()) => old(buf)@.len() > 0 ==> {
                    &&& pos + old(buf)@.len() <= self.contents().len()
                    &&& final(buf)@ == self.contents().subrange(
                        pos as int,
                        pos + old(buf)@.len(),
                    )
                },
                Err(e) => e.is_source_failure(),
            },
    ;
}

/// A source that is read front to back, and can be moved to any offset.
///
/// The contracts speak of the bytes that the source holds and of the offset
/// that it stands at. Verus checks the implementations in this crate against
/// them; of one written elsewhere they are assumed, with `contents` and
/// `position` left as they are here.
pub trait ReadSeek {
    /// The bytes that the source holds.
    open spec fn contents(&self) -> Seq<u8> {
        arbitrary()
    }

    /// The offset of the byte that is read next.
    open spec fn position(&self) -> nat {
        arbitrary()
    }

    /// Fills `buf` with the bytes at the current position, and moves behind
    /// them.
    fn read_exact(&mut self, buf: &mut [u8]) -> (done: Result<(), Error>)
        ensures
            final(buf)@.len() == old(buf)@.len(),
            final(self).contents() == old(self).contents(),
            match done {
                Ok(()) => {
                    &&& final(self).position() == old(self).position() + old(buf)@.len()
                    &&& old(buf)@.len() > 0 ==> {
                        &&& old(self).position() + old(buf)@.len() <= old(self).contents().len()
                        &&& final(buf)@ == old(self).contents().subrange(
                            old(self).position() as int,
                            (old(self).position() + old(buf)@.len()) as int,
                        )
                    }
                },
                Err(e) => e.is_source_failure(),
            },
    ;

    /// Moves to the offset `pos`, counted from the start, and returns it.
    fn seek_abs(&mut self, pos: u64) -> (reached: Result<u64, Error>)
        ensures
            final(self).contents() == old(self).contents(),
            match reached {
                Ok(at) => at == pos && final(self).position() == pos,
                Err(e) => e.is_source_failure(),
            },
    ;
}

/// Copies the bytes of `bytes` that start at `pos` into `buf`.
fn copy_at(bytes: &[u8], pos: u64, buf: &mut [u8]) -> (done: Result<(), Error>)
    ensures
        final(buf)@.len() == old(buf)@.len(),
        match done {
            Ok(()) => {
                &&& pos + old(buf)@.len() <= bytes@.len()
                &&& final(buf)@ == bytes@.subrange(pos as int, pos + old(buf)@.len())
            },
            Err(e) => e == Error::UnexpectedEof && pos + old(buf)@.len() > bytes@.len(),
        },
{
    let wanted: usize = buf.len();
    let len: usize = bytes.len();
    if pos > len as u64 {
        return Err(Error::UnexpectedEof);
    }
    let start: usize = pos as usize;
    if wanted > len - start {
        return Err(Error::UnexpectedEof);
    }
    let mut i: usize = 0;
    while i < wanted
        invariant
            i <= wanted,
            wanted == buf@.len(),
            start + wanted <= bytes@.len() <= usize::MAX,
            forall|j: int| 0 <= j < i ==> buf@[j] == bytes@[start + j],
        decreases wanted - i,
    {
        buf[i] = bytes[start + i];
        i += 1;
    }
    assert(buf@ =~= bytes@.subrange(pos as int, pos + wanted));
    Ok(())
}

/// Bytes in memory are a source; reading behind their end is an
/// `UnexpectedEof`.
impl ReadAt for Vec<u8> {
    open spec fn contents(&self) -> Seq<u8> {
        self@
    }

    fn read_exact_at(&self, pos: u64, buf: &mut [u8]) -> (done: Result<(), Error>)
        ensures
            done is Ok <==> pos + old(buf)@.len() <= self@.len(),
            done matches Err(e) ==> e == Error::UnexpectedEof,
    {
        copy_at(self.as_slice(), pos, buf)
    }
}

/// Borrowed bytes are a source; reading behind their end is an
/// `UnexpectedEof`.
impl<'a> ReadAt for &'a [u8] {
    open spec fn contents(&self) -> Seq<u8> {
        self@
    }

    fn read_exact_at(&self, pos: u64, buf: &mut [u8]) -> (done: Result<(), Error>)
        ensures
            done is Ok <==> pos + old(buf)@.len() <= self@.len(),
            done matches Err(e) ==> e == Error::UnexpectedEof,
    {
        copy_at(*self, pos, buf)
    }
}

/// Reads a source that can be read at any offset front to back, by keeping
/// the offset.
pub struct Cursor<R> {
    /// The source that the cursor reads.
    pub inner: R,
    /// The offset that the cursor stands at.
    pub pos: u64,
}

impl<R> Cursor<R> {
    /// A cursor at the start of `inner`.
    pub fn new(inner: R) -> (cursor: Self)
        ensures
            cursor.inner == inner,
            cursor.pos == 0,
    {
        Cursor { inner, pos: 0 }
    }
}

impl<R: ReadAt> ReadSeek for Cursor<R> {
    open spec fn contents(&self) -> Seq<u8> {
        self.inner.contents()
    }

    open spec fn position(&self) -> nat {
        self.pos as nat
    }

    /// A read that would end behind offset `u64::MAX` is an `Overflow`, and
    /// leaves `buf` as it is.
    fn read_exact(&mut self, buf: &mut [u8]) -> (done: Result<(), Error>)
        ensures
            final(self).inner == old(self).inner,
            old(self).pos + old(buf)@.len() > u64::MAX ==> {
                &&& done == Err::<(), Error>(Error::Overflow)
                &&& final(buf)@ == old(buf)@
                &&& final(self).pos == old(self).pos
            },
    {
        let wanted = buf.len();
        if wanted as u64 > u64::MAX - self.pos {
            return Err(Error::Overflow);
        }
        match self.inner.read_exact_at(self.pos, buf) {
            Ok(()) => {
                self.pos = self.pos + wanted as u64;
                Ok(())
            },
            Err(e) => Err(e),
        }
    }

    fn seek_abs(&mut self, pos: u64) -> (reached: Result<u64, Error>)
        ensures
            reached is Ok,
            final(self).inner == old(self).inner,
    {
        self.pos = pos;
        Ok(pos)
    }
}

} // verus!
