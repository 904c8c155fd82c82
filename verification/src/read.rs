//! Reading and seeking, for the sources that a `RangeReader` wraps.

use vstd::prelude::*;

use crate::errors::Error;
use crate::io::{Cursor, ReadAt};

verus! {

/// Where to seek to.
#[derive(Debug, Copy, Eq, PartialEq, Clone)]
pub enum SeekFrom {
    /// So many bytes behind the start.
    Start(u64),
    /// So many bytes behind the end; before it, where negative.
    End(i64),
    /// So many bytes behind the current position; before it, where negative.
    Current(i64),
}

/// What std calls where to seek to.
#[verifier::external_type_specification]
pub struct ExSeekFrom(std::io::SeekFrom);

impl From<std::io::SeekFrom> for SeekFrom {
    fn from(e: std::io::SeekFrom) -> (pos: Self) {
        match e {
            std::io::SeekFrom::Start(v) => SeekFrom::Start(v),
            std::io::SeekFrom::End(v) => SeekFrom::End(v),
            std::io::SeekFrom::Current(v) => SeekFrom::Current(v),
        }
    }
}

impl vstd::std_specs::convert::FromSpecImpl<std::io::SeekFrom> for SeekFrom {
    open spec fn obeys_from_spec() -> bool {
        true
    }

    open spec fn from_spec(e: std::io::SeekFrom) -> Self {
        match e {
            std::io::SeekFrom::Start(v) => SeekFrom::Start(v),
            std::io::SeekFrom::End(v) => SeekFrom::End(v),
            std::io::SeekFrom::Current(v) => SeekFrom::Current(v),
        }
    }
}

impl From<SeekFrom> for std::io::SeekFrom {
    fn from(e: SeekFrom) -> (pos: Self) {
        match e {
            SeekFrom::Start(v) => std::io::SeekFrom::Start(v),
            SeekFrom::End(v) => std::io::SeekFrom::End(v),
            SeekFrom::Current(v) => std::io::SeekFrom::Current(v),
        }
    }
}

impl vstd::std_specs::convert::FromSpecImpl<SeekFrom> for std::io::SeekFrom {
    open spec fn obeys_from_spec() -> bool {
        true
    }

    open spec fn from_spec(e: SeekFrom) -> Self {
        match e {
            SeekFrom::Start(v) => std::io::SeekFrom::Start(v),
            SeekFrom::End(v) => std::io::SeekFrom::End(v),
            SeekFrom::Current(v) => std::io::SeekFrom::Current(v),
        }
    }
}

/// The error of a source, and what its contracts speak of: the bytes that
/// it holds and the offset that it stands at.
///
/// Verus checks the implementations in this crate against the contracts of
/// `Read` and `Seek`; of one written elsewhere they are assumed, with
/// `contents` and `position` left as they are here.
pub trait ReaderError {
    type Error;

    /// The bytes that the source holds.
    open spec fn contents(&self) -> Seq<u8> {
        arbitrary()
    }

    /// The offset of the byte that is read next.
    open spec fn position(&self) -> nat {
        arbitrary()
    }
}

pub trait Read: ReaderError {
    /// Reads some bytes at the current position into the front of `buf`,
    /// moves behind them, and returns how many they were.
    fn read(&mut self, buf: &mut [u8]) -> (count: Result<usize, Self::Error>)
        ensures
            final(buf)@.len() == old(buf)@.len(),
            final(self).contents() == old(self).contents(),
            count matches Ok(n) ==> {
                &&& n <= old(buf)@.len()
                &&& final(self).position() == old(self).position() + n
                &&& final(buf)@.skip(n as int) == old(buf)@.skip(n as int)
                &&& n > 0 ==> {
                    &&& old(self).position() + n <= old(self).contents().len()
                    &&& final(buf)@.take(n as int) == old(self).contents().subrange(
                        old(self).position() as int,
                        (old(self).position() + n) as int,
                    )
                }
            },
    ;

    /// Fills `buf` with the bytes at the current position, and moves behind
    /// them.
    fn read_exact(&mut self, buf: &mut [u8]) -> (done: Result<(), Self::Error>)
        ensures
            final(buf)@.len() == old(buf)@.len(),
            final(self).contents() == old(self).contents(),
            done is Ok ==> {
                &&& final(self).position() == old(self).position() + old(buf)@.len()
                &&& old(buf)@.len() > 0 ==> {
                    &&& old(self).position() + old(buf)@.len() <= old(self).contents().len()
                    &&& final(buf)@ == old(self).contents().subrange(
                        old(self).position() as int,
                        (old(self).position() + old(buf)@.len()) as int,
                    )
                }
            },
    ;
}

pub trait Seek: ReaderError {
    /// Moves to another position and returns it, counted from the start.
    /// Where it lies is for the source to decide; only `Current(0)` is sure to
    /// leave the source where it stands.
    fn seek(&mut self, pos: SeekFrom) -> (reached: Result<u64, Self::Error>)
        ensures
            final(self).contents() == old(self).contents(),
            reached matches Ok(at) ==> {
                &&& final(self).position() == at
                &&& pos == SeekFrom::Current(0) ==> at == old(self).position()
            },
    ;
}

/// Where a seek from `base` by `offset` leads, unless it leaves what 64 bits
/// can address.
pub open spec fn displaced(base: u64, offset: i64) -> Option<u64> {
    if 0 <= base + offset <= u64::MAX {
        Some((base + offset) as u64)
    } else {
        None
    }
}

/// Moves `base` by `offset`.
fn displace(base: u64, offset: i64) -> (moved: Option<u64>)
    ensures
        moved == displaced(base, offset),
{
    if offset >= 0 {
        base.checked_add(offset as u64)
    } else if offset == i64::MIN {
        base.checked_sub(0x8000_0000_0000_0000)
    } else {
        base.checked_sub((-offset) as u64)
    }
}

impl ReaderError for Cursor<Vec<u8>> {
    type Error = Error;

    open spec fn contents(&self) -> Seq<u8> {
        self.inner@
    }

    open spec fn position(&self) -> nat {
        self.pos as nat
    }
}

/// Bytes in memory are read as far as they go.
impl Read for Cursor<Vec<u8>> {
    /// Reads as many bytes as `buf` takes and the bytes behind the cursor go.
    fn read(&mut self, buf: &mut [u8]) -> (count: Result<usize, Error>)
        ensures
            final(self).inner == old(self).inner,
            count == Ok::<usize, Error>(
                if old(self).pos >= old(self).inner@.len() {
                    0usize
                } else if old(buf)@.len() <= old(self).inner@.len() - old(self).pos {
                    old(buf)@.len() as usize
                } else {
                    (old(self).inner@.len() - old(self).pos) as usize
                },
            ),
    {
        let len = self.inner.len();
        let start: usize = if self.pos > len as u64 {
            len
        } else {
            self.pos as usize
        };
        let wanted = buf.len();
        let count = if wanted < len - start {
            wanted
        } else {
            len - start
        };
        let ghost before = buf@;
        let mut i: usize = 0;
        while i < count
            invariant
                i <= count <= wanted,
                wanted == buf@.len() == before.len(),
                start + count <= self.inner@.len() <= usize::MAX,
                forall|j: int| 0 <= j < i ==> buf@[j] == self.inner@[start + j],
                forall|j: int| i <= j < wanted ==> buf@[j] == before[j],
            decreases count - i,
        {
            buf[i] = self.inner[start + i];
            i += 1;
        }
        if count > 0 {
            self.pos = self.pos + count as u64;
        }
        assert(buf@.skip(count as int) =~= before.skip(count as int));
        assert(count > 0 ==> buf@.take(count as int) =~= old(self).inner@.subrange(
            old(self).pos as int,
            (old(self).pos + count) as int,
        ));
        Ok(count)
    }

    /// Fails with `UnexpectedEof`, and reads nothing, where fewer bytes are
    /// left than `buf` takes.
    fn read_exact(&mut self, buf: &mut [u8]) -> (done: Result<(), Error>)
        ensures
            final(self).inner == old(self).inner,
            done is Ok <==> old(self).pos + old(buf)@.len() <= old(self).inner@.len(),
            done matches Err(e) ==> e == Error::UnexpectedEof && final(self).pos == old(self).pos,
    {
        let len = self.inner.len();
        match self.inner.read_exact_at(self.pos, buf) {
            Ok(()) => {
                self.pos = self.pos + buf.len() as u64;
                Ok(())
            },
            Err(e) => Err(e),
        }
    }
}

/// Bytes in memory can be sought anywhere from offset 0 on, behind their end
/// too; a position that 64 bits cannot hold is an `Overflow`.
impl Seek for Cursor<Vec<u8>> {
    fn seek(&mut self, pos: SeekFrom) -> (reached: Result<u64, Error>)
        ensures
            final(self).inner == old(self).inner,
            match pos {
                SeekFrom::Start(offset) => reached == Ok::<u64, Error>(offset),
                SeekFrom::End(offset) => match displaced(old(self).inner@.len() as u64, offset) {
                    Some(at) => reached == Ok::<u64, Error>(at),
                    None => reached == Err::<u64, Error>(Error::Overflow) && final(self).pos == old(
                        self,
                    ).pos,
                },
                SeekFrom::Current(offset) => match displaced(old(self).pos, offset) {
                    Some(at) => reached == Ok::<u64, Error>(at),
                    None => reached == Err::<u64, Error>(Error::Overflow) && final(self).pos == old(
                        self,
                    ).pos,
                },
            },
    {
        let target = match pos {
            SeekFrom::Start(offset) => Some(offset),
            SeekFrom::End(offset) => displace(self.inner.len() as u64, offset),
            SeekFrom::Current(offset) => displace(self.pos, offset),
        };
        match target {
            Some(at) => {
                self.pos = at;
                Ok(at)
            },
            None => Err(Error::Overflow),
        }
    }
}

} // verus!
