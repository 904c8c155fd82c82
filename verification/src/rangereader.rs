//! A reader that is confined to a range of bytes of another reader.

use vstd::prelude::*;

use crate::read::{Read, ReaderError, Seek, SeekFrom};

verus! {

/// Why a range could not be opened, read or sought in.
#[derive(Debug, Eq, PartialEq, Copy, Clone)]
pub enum RangeError<E> {
    /// The range ends behind what 64 bits can address.
    LenImplausiblePastEnd,
    /// The source could not be moved to the start of the range.
    StartAfterEndOfFile,
    /// The source stands outside the range.
    IllegalCursorPosition { first_byte: u64, pos: u64, end: u64 },
    /// The seek leads behind the end of the range.
    CantSeekPastEnd,
    /// The seek leads before the start of the range.
    CantSeekBeforeStart,
    /// The source itself failed.
    Inner(E),
}

/// Produced by `open_partition`.
pub struct RangeReader<R> {
    inner: R,
    first_byte: u64,
    end: u64,
}

/// The bytes of `contents` that lie in the range from `first_byte` to `end`.
pub open spec fn window(contents: Seq<u8>, first_byte: u64, end: u64) -> Seq<u8> {
    let len = contents.len() as int;
    let from = if first_byte <= len {
        first_byte as int
    } else {
        len
    };
    let to = if end <= from {
        from
    } else if end <= len {
        end as int
    } else {
        len
    };
    contents.subrange(from, to)
}

/// What a seek in a range asks of the source: the same seek, with offsets
/// from the start and the end of the range turned into offsets from the
/// start of the source.
pub open spec fn translated<E>(first_byte: u64, end: u64, action: SeekFrom) -> Result<
    SeekFrom,
    RangeError<E>,
> {
    match action {
        SeekFrom::Start(dist) => if first_byte + dist > u64::MAX {
            Err(RangeError::CantSeekPastEnd)
        } else {
            Ok(SeekFrom::Start((first_byte + dist) as u64))
        },
        SeekFrom::Current(dist) => Ok(SeekFrom::Current(dist)),
        SeekFrom::End(dist) => if dist > 0 {
            Err(RangeError::CantSeekPastEnd)
        } else if end + dist < first_byte {
            Err(RangeError::CantSeekBeforeStart)
        } else {
            Ok(SeekFrom::Start((end + dist) as u64))
        },
    }
}

/// Turns a seek in the range from `first_byte` to `end` into a seek in the
/// source.
pub fn translate<E>(first_byte: u64, end: u64, action: SeekFrom) -> (target: Result<
    SeekFrom,
    RangeError<E>,
>)
    ensures
        target == translated::<E>(first_byte, end, action),
{
    match action {
        SeekFrom::Start(dist) => match first_byte.checked_add(dist) {
            Some(at) => Ok(SeekFrom::Start(at)),
            None => Err(RangeError::CantSeekPastEnd),
        },
        SeekFrom::Current(dist) => Ok(SeekFrom::Current(dist)),
        SeekFrom::End(dist) => {
            if dist > 0 {
                return Err(RangeError::CantSeekPastEnd);
            }
            let back: u64 = if dist == 0 {
                0
            } else {
                (-(dist + 1)) as u64 + 1
            };
            if end < first_byte || back > end - first_byte {
                return Err(RangeError::CantSeekBeforeStart);
            }
            Ok(SeekFrom::Start(end - back))
        },
    }
}

/// What reaching the offset `seeked` means for opening a range at
/// `first_byte`: a source that went elsewhere is too short for the range.
pub open spec fn start_checked<E>(first_byte: u64, seeked: u64) -> Result<(), RangeError<E>> {
    if seeked == first_byte {
        Ok(())
    } else {
        Err(RangeError::StartAfterEndOfFile)
    }
}

/// Checks that a source that was sent to `first_byte` has arrived there.
pub fn check_start<E>(first_byte: u64, seeked: u64) -> (reached: Result<(), RangeError<E>>)
    ensures
        reached == start_checked::<E>(first_byte, seeked),
{
    if seeked != first_byte {
        Err(RangeError::StartAfterEndOfFile)
    } else {
        Ok(())
    }
}

/// How many bytes a read of `wanted` bytes at offset `pos` may take from a
/// range that ends at `end`: as many as are wanted, and no more than are left.
pub open spec fn clamped(end: u64, pos: u64, wanted: usize) -> usize {
    if wanted <= end - pos {
        wanted
    } else {
        (end - pos) as usize
    }
}

/// Clamps a read of `wanted` bytes at offset `pos` to a range that ends at
/// `end`.
pub fn clamp(end: u64, pos: u64, wanted: usize) -> (count: usize)
    requires
        pos <= end,
    ensures
        count == clamped(end, pos, wanted),
{
    let left: u64 = end - pos;
    if left > usize::MAX as u64 || wanted as u64 <= left {
        wanted
    } else {
        left as usize
    }
}

impl<R> RangeReader<R> {
    /// The source that the reader reads.
    pub closed spec fn inner(&self) -> R {
        self.inner
    }

    /// The offset in the source of the first byte of the range.
    pub closed spec fn first_byte(&self) -> u64 {
        self.first_byte
    }

    /// The offset in the source of the first byte behind the range.
    pub closed spec fn end(&self) -> u64 {
        self.end
    }

    /// The range does not end before it starts.
    pub open spec fn wf(&self) -> bool {
        self.first_byte() <= self.end()
    }

    /// Whether `pos` is an offset in the range, or its end.
    pub open spec fn in_range(&self, pos: u64) -> bool {
        self.first_byte() <= pos <= self.end()
    }
}

/// How opening the range of `len` bytes at `first_byte` of `inner` can end.
///
/// A range that ends behind offset `u64::MAX` is refused. Otherwise the source
/// decides: the range is open once the source has moved to `first_byte`, and
/// it is refused where the source fails or moves elsewhere.
pub open spec fn opens<R: Seek>(
    inner: R,
    first_byte: u64,
    len: u64,
    opened: Result<RangeReader<R>, RangeError<R::Error>>,
) -> bool {
    if first_byte + len > u64::MAX {
        opened matches Err(RangeError::LenImplausiblePastEnd)
    } else {
        match opened {
            Ok(reader) => {
                &&& reader.wf()
                &&& reader.first_byte() == first_byte
                &&& reader.end() == first_byte + len
                &&& reader.inner().position() == first_byte
                &&& reader.inner().contents() == inner.contents()
            },
            Err(RangeError::StartAfterEndOfFile) => true,
            Err(RangeError::Inner(_)) => true,
            Err(_) => false,
        }
    }
}

impl<R: Seek> RangeReader<R> {
    /// Opens the range of `len` bytes that starts at `first_byte`, and moves
    /// `inner` to its start.
    pub fn new(inner: R, first_byte: u64, len: u64) -> (opened: Result<
        RangeReader<R>,
        RangeError<R::Error>,
    >)
        ensures
            opens(inner, first_byte, len, opened),
    {
        let end = match first_byte.checked_add(len) {
            Some(end) => end,
            None => {
                return Err(RangeError::LenImplausiblePastEnd);
            },
        };
        let mut inner = inner;
        let seeked = match inner.seek(SeekFrom::Start(first_byte)) {
            Ok(at) => at,
            Err(e) => {
                return Err(RangeError::Inner(e));
            },
        };
        match check_start(first_byte, seeked) {
            Ok(()) => Ok(RangeReader { inner, first_byte, end }),
            Err(e) => Err(e),
        }
    }

    /// Checks that `pos`, an offset in the source, lies in the range.
    #[inline]
    pub fn check_valid_position(&self, pos: u64) -> (valid: Result<(), RangeError<R::Error>>)
        ensures
            valid == if self.in_range(pos) {
                Ok::<(), RangeError<R::Error>>(())
            } else {
                Err::<(), RangeError<R::Error>>(
                    RangeError::IllegalCursorPosition {
                        first_byte: self.first_byte(),
                        pos,
                        end: self.end(),
                    },
                )
            },
    {
        if pos < self.first_byte || pos > self.end {
            Err(RangeError::IllegalCursorPosition { first_byte: self.first_byte, pos, end: self.end })
        } else {
            Ok(())
        }
    }
}

/// A range reads like a source of its own: it holds the bytes of the range,
/// and counts positions from the start of the range.
impl<R: Read + Seek> ReaderError for RangeReader<R> {
    // We carry over the error from the inner reader
    type Error = RangeError<R::Error>;

    open spec fn contents(&self) -> Seq<u8> {
        window(self.inner().contents(), self.first_byte(), self.end())
    }

    open spec fn position(&self) -> nat {
        if self.inner().position() >= self.first_byte() {
            (self.inner().position() - self.first_byte()) as nat
        } else {
            0
        }
    }
}

impl<R: Read + Seek> Read for RangeReader<R> {
    /// Reads no further than the range goes.
    ///
    /// Where the source stands outside the range, nothing is read. Otherwise
    /// the source is asked for as many bytes as `clamped` allows.
    fn read(&mut self, buf: &mut [u8]) -> (count: Result<usize, Self::Error>)
        ensures
            final(self).first_byte() == old(self).first_byte(),
            final(self).end() == old(self).end(),
            match count {
                Ok(n) => {
                    &&& old(self).in_range(old(self).inner().position() as u64)
                    &&& old(self).inner().position() + n <= old(self).end()
                    &&& final(self).inner().position() == old(self).inner().position() + n
                },
                Err(RangeError::IllegalCursorPosition { first_byte, pos, end }) => {
                    &&& first_byte == old(self).first_byte()
                    &&& end == old(self).end()
                    &&& pos == old(self).inner().position()
                    &&& !old(self).in_range(pos)
                    &&& final(self).inner().position() == pos
                    &&& final(buf)@ == old(buf)@
                },
                Err(RangeError::Inner(_)) => true,
                Err(_) => false,
            },
            // What lies in `buf` behind the bytes that the range has left is
            // not handed to the source.
            old(self).in_range(old(self).inner().position() as u64) ==> {
                let count = clamped(
                    old(self).end(),
                    old(self).inner().position() as u64,
                    old(buf)@.len() as usize,
                );
                final(buf)@.skip(count as int) == old(buf)@.skip(count as int)
            },
    {
        let current_real = match self.inner.seek(SeekFrom::Current(0)) {
            Ok(at) => at,
            Err(e) => {
                return Err(RangeError::Inner(e));
            },
        };
        match self.check_valid_position(current_real) {
            Ok(()) => {},
            Err(e) => {
                return Err(e);
            },
        }
        let available = clamp(self.end, current_real, buf.len());
        let ghost before = buf@;
        let (head, rest) = buf.split_at_mut(available);
        match self.inner.read(head) {
            Ok(n) => {
                proof {
                    let contents = old(self).inner().contents();
                    let at = current_real as int;
                    assert forall|i: int| n <= i < before.len() implies buf@[i] == before[i] by {
                        if i < available {
                            assert(head@.skip(n as int)[i - n] == head@[i]);
                            assert(before.subrange(0, available as int).skip(n as int)[i - n]
                                == before[i]);
                        }
                    }
                    assert(buf@.skip(n as int) =~= before.skip(n as int));
                    if n > 0 {
                        assert(buf@.take(n as int) =~= head@.take(n as int));
                        assert(contents.subrange(at, at + n) =~= window(
                            contents,
                            self.first_byte,
                            self.end,
                        ).subrange(at - self.first_byte, at - self.first_byte + n));
                    }
                }
                Ok(n)
            },
            Err(e) => Err(RangeError::Inner(e)),
        }
    }

    /// Fills `buf` from the range, or reads nothing.
    ///
    /// Where the source stands outside the range, or fewer bytes are left in
    /// the range than `buf` takes, nothing is read.
    fn read_exact(&mut self, buf: &mut [u8]) -> (done: Result<(), Self::Error>)
        ensures
            final(self).first_byte() == old(self).first_byte(),
            final(self).end() == old(self).end(),
            match done {
                Ok(()) => {
                    &&& old(self).in_range(old(self).inner().position() as u64)
                    &&& old(self).inner().position() + old(buf)@.len() <= old(self).end()
                    &&& final(self).inner().position() == old(self).inner().position() + old(
                        buf,
                    )@.len()
                },
                Err(RangeError::IllegalCursorPosition { first_byte, pos, end }) => {
                    &&& first_byte == old(self).first_byte()
                    &&& end == old(self).end()
                    &&& !old(self).in_range(pos)
                    &&& pos == old(self).inner().position() || (old(self).in_range(
                        old(self).inner().position() as u64,
                    ) && pos == old(self).inner().position() + old(buf)@.len())
                    &&& final(self).inner().position() == old(self).inner().position()
                    &&& final(buf)@ == old(buf)@
                },
                Err(RangeError::LenImplausiblePastEnd) => {
                    &&& old(self).inner().position() + old(buf)@.len() > u64::MAX
                    &&& final(self).inner().position() == old(self).inner().position()
                    &&& final(buf)@ == old(buf)@
                },
                Err(RangeError::Inner(_)) => true,
                Err(_) => false,
            },
    {
        let current_real = match self.inner.seek(SeekFrom::Current(0)) {
            Ok(at) => at,
            Err(e) => {
                return Err(RangeError::Inner(e));
            },
        };
        match self.check_valid_position(current_real) {
            Ok(()) => {},
            Err(e) => {
                return Err(e);
            },
        }
        let wanted = buf.len();
        let end_real = match current_real.checked_add(wanted as u64) {
            Some(at) => at,
            None => {
                return Err(RangeError::LenImplausiblePastEnd);
            },
        };
        match self.check_valid_position(end_real) {
            Ok(()) => {},
            Err(e) => {
                return Err(e);
            },
        }
        match self.inner.read_exact(buf) {
            Ok(()) => {
                proof {
                    let contents = old(self).inner().contents();
                    let at = current_real as int;
                    if wanted > 0 {
                        assert(contents.subrange(at, at + wanted) =~= window(
                            contents,
                            self.first_byte,
                            self.end,
                        ).subrange(at - self.first_byte, at - self.first_byte + wanted));
                    }
                }
                Ok(())
            },
            Err(e) => Err(RangeError::Inner(e)),
        }
    }
}

impl<R: Read + Seek> Seek for RangeReader<R> {
    /// Seeks in the range, and returns the position counted from its start.
    ///
    /// A seek that cannot be turned into one of the source leaves the source
    /// alone. Otherwise the source decides where the seek leads, and a
    /// position outside the range is refused after the source has moved there.
    fn seek(&mut self, action: SeekFrom) -> (reached: Result<u64, Self::Error>)
        ensures
            final(self).first_byte() == old(self).first_byte(),
            final(self).end() == old(self).end(),
            match translated::<R::Error>(old(self).first_byte(), old(self).end(), action) {
                Err(e) => reached == Err::<u64, RangeError<R::Error>>(e) && final(self).inner()
                    == old(self).inner(),
                Ok(_) => match reached {
                    Ok(at) => {
                        &&& final(self).inner().position() == old(self).first_byte() + at
                        &&& old(self).first_byte() + at <= old(self).end()
                    },
                    Err(RangeError::IllegalCursorPosition { first_byte, pos, end }) => {
                        &&& first_byte == old(self).first_byte()
                        &&& end == old(self).end()
                        &&& !old(self).in_range(pos)
                        &&& final(self).inner().position() == pos
                    },
                    Err(RangeError::Inner(_)) => true,
                    Err(_) => false,
                },
            },
    {
        let target = match translate::<R::Error>(self.first_byte, self.end, action) {
            Ok(target) => target,
            Err(e) => {
                return Err(e);
            },
        };
        let new_pos = match self.inner.seek(target) {
            Ok(at) => at,
            Err(e) => {
                return Err(RangeError::Inner(e));
            },
        };
        match self.check_valid_position(new_pos) {
            Ok(()) => {},
            Err(e) => {
                return Err(e);
            },
        }
        Ok(new_pos - self.first_byte)
    }
}

} // verus!
