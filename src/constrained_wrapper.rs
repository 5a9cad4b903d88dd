//! A view over a byte store that keeps every read, write and seek inside a
//! window `[start, end]` of absolute positions.
use crate::cast::u64_into_usize;
use crate::store::{full_read_len, spliced, ByteStore, SeekFrom, StoreError};
use crate::{stream_len, stream_position};
use core::ops::Range;
use vstd::std_specs::cmp::{PartialOrdIs, PartialOrdSpec};
use vstd::prelude::*;

verus! {

/// A window of positions; `end` is the first position past it.
pub type ViewRange<T> = Range<T>;

/// `range` with its bounds swapped where `end < start`.
pub open spec fn sorted<T: PartialOrd>(range: ViewRange<T>) -> ViewRange<T> {
    if range.start.is_gt(&range.end) {
        (Range { start: range.end, end: range.start })
    } else {
        range
    }
}

/// Orders the bounds of `range`, so that `start` is not greater than `end`.
pub fn sort_range<T: PartialOrd>(range: ViewRange<T>) -> (r: ViewRange<T>)
    ensures
        T::obeys_partial_cmp_spec() ==> r == sorted(range),
{
    if range.start > range.end {
        Range { start: range.end, end: range.start }
    } else {
        range
    }
}

/// Why an absolute position has no offset in a view.
#[derive(Debug, Copy, Clone, Eq, PartialEq, Structural)]
pub enum IntoOffsetError {
    /// The position is before `range.start`.
    OutOfLowerBounds,
    /// The position is after `range.end`.
    OutOfUpperBounds,
}

/// Why a signed offset cannot be applied to a position.
#[derive(Debug, Copy, Clone, Eq, PartialEq, Structural)]
pub enum OffsetError {
    /// The result would be negative (or would not fit in a `u64`).
    Negative,
}

/// `position + offset`, where that is a `u64` and `offset` has a magnitude
/// that a `u64` holds as a negation.
pub open spec fn offset_applied(position: int, offset: i64) -> Option<u64> {
    if offset == i64::MIN || position + offset < 0 || position + offset > u64::MAX {
        None
    } else {
        Some((position + offset) as u64)
    }
}

/// The magnitude of a negative `offset`; `i64::MIN` has none that an `i64`
/// negation gives.
fn negative_i64_into_u64_offset(offset: i64) -> (r: Result<u64, OffsetError>)
    requires
        offset < 0,
    ensures
        offset == i64::MIN ==> r == Err::<u64, OffsetError>(OffsetError::Negative),
        offset != i64::MIN ==> r == Ok::<u64, OffsetError>((-offset) as u64),
{
    if offset == i64::MIN {
        Err(OffsetError::Negative)
    } else {
        let magnitude: i64 = -offset;
        Ok(magnitude as u64)
    }
}

/// Applies a signed `offset` to `position` without wrapping.
fn apply_offset(position: u64, offset: i64) -> (r: Result<u64, OffsetError>)
    ensures
        r matches Ok(p) ==> offset_applied(position as int, offset) == Some(p),
        r is Err ==> offset_applied(position as int, offset) is None,
{
    if offset < 0 {
        let magnitude = negative_i64_into_u64_offset(offset)?;
        if magnitude > position {
            Err(OffsetError::Negative)
        } else {
            Ok(position - magnitude)
        }
    } else {
        let magnitude = offset as u64;
        if position > u64::MAX - magnitude {
            Err(OffsetError::Negative)
        } else {
            Ok(position + magnitude)
        }
    }
}

/// The absolute position that a seek on a view over `[start, end]` aims at,
/// before it is clamped to the store's length; `None` where it is negative or
/// does not fit in a `u64`.
pub open spec fn view_target(to: SeekFrom, start: u64, end: u64, pos: nat) -> Option<u64> {
    match to {
        SeekFrom::Start(n) => if start + n <= u64::MAX {
            Some((start + n) as u64)
        } else {
            None
        },
        SeekFrom::End(d) => offset_applied(end as int, d),
        SeekFrom::Current(d) => offset_applied(pos as int, d),
    }
}

/// The smaller of two integers.
pub open spec fn min_int(a: int, b: int) -> int {
    if a <= b {
        a
    } else {
        b
    }
}

/// A store seen through a window `[start, end]`: offsets count from `start`
/// and no read, write or seek leaves the window.
pub struct ConstrainedWrapper<R: ByteStore> {
    reader: R,
    range: ViewRange<u64>,
}

impl<R: ByteStore> ConstrainedWrapper<R> {
    /// The wrapped store.
    pub closed spec fn inner(&self) -> R {
        self.reader
    }

    /// The first position of the window.
    pub closed spec fn start(&self) -> u64 {
        self.range.start
    }

    /// The last position of the window.
    pub closed spec fn end(&self) -> u64 {
        self.range.end
    }

    /// The window's bounds are in order.
    pub open spec fn wf(&self) -> bool {
        self.start() <= self.end()
    }

    /// The store's position lies in the window.
    pub open spec fn in_window(&self) -> bool {
        self.start() <= self.inner().pos() <= self.end()
    }

    /// The store's position, clamped to its length: where the view's next
    /// read or write starts.
    pub open spec fn here(&self) -> int {
        min_int(self.inner().pos() as int, self.inner().bytes().len() as int)
    }

    /// Where a seek to `to` lands, where that lies in the window.
    pub open spec fn landing(&self, to: SeekFrom) -> Option<int> {
        match view_target(to, self.start(), self.end(), self.inner().pos()) {
            Some(t) => {
                let p = min_int(t as int, self.inner().bytes().len() as int);
                if self.start() <= p <= self.end() {
                    Some(p)
                } else {
                    None
                }
            },
            None => None,
        }
    }

    /// Wraps `reader`, seeking it to the window's start where it lies outside
    /// the window, and leaving it where it is otherwise.
    pub fn new(reader: R, range: ViewRange<u64>) -> (r: Result<Self, StoreError>)
        ensures
            reader.reliable() ==> (r matches Ok(w) && w.inner().reliable()),
            r matches Ok(w) ==> {
                &&& w.wf() && w.in_window()
                &&& (w.start(), w.end()) == (sorted(range).start, sorted(range).end)
                &&& w.inner().bytes() == reader.bytes()
                &&& (sorted(range).start <= reader.pos() <= sorted(range).end ==> w.inner().pos()
                    == reader.pos())
                &&& (!(sorted(range).start <= reader.pos() <= sorted(range).end)
                    ==> w.inner().pos() == sorted(range).start)
            },
    {
        let mut reader = reader;
        let range = sort_range(range);
        let position = stream_position(&mut reader)?;
        if position < range.start || position > range.end {
            reader.seek(SeekFrom::Start(range.start))?;
        }
        Ok(Self::new_unchecked(reader, range))
    }

    /// Wraps `reader`, whose position the caller knows to lie in `range`.
    pub fn new_unchecked(reader: R, range: ViewRange<u64>) -> (r: Self)
        requires
            range.start <= range.end,
            range.start <= reader.pos() <= range.end,
        ensures
            r.wf() && r.in_window(),
            r.inner() == reader,
            r.start() == range.start,
            r.end() == range.end,
    {
        ConstrainedWrapper { reader, range }
    }

    /// Gives up the view and returns the store.
    pub fn into_inner(self) -> (r: R)
        ensures
            r == self.inner(),
    {
        self.reader
    }

    /// The number of positions past the window's start that it allows.
    pub fn limit(&self) -> (r: u64)
        requires
            self.wf(),
        ensures
            r == self.end() - self.start(),
    {
        self.range.end - self.range.start
    }

    /// The window.
    pub fn range(&self) -> (r: &ViewRange<u64>)
        ensures
            r.start == self.start(),
            r.end == self.end(),
    {
        &self.range
    }

    /// The absolute position of an offset into the window.
    pub fn position_from_offset(&self, offset: u64) -> (r: u64)
        requires
            offset + self.start() <= u64::MAX,
        ensures
            r == offset + self.start(),
    {
        offset + self.range.start
    }

    /// The offset into the window of an absolute position.
    pub fn position_into_offset(&self, position: u64) -> (r: Result<u64, IntoOffsetError>)
        ensures
            position > self.end() ==> r == Err::<u64, IntoOffsetError>(
                IntoOffsetError::OutOfUpperBounds,
            ),
            position <= self.end() && position < self.start() ==> r == Err::<u64, IntoOffsetError>(
                IntoOffsetError::OutOfLowerBounds,
            ),
            self.start() <= position <= self.end() ==> r == Ok::<u64, IntoOffsetError>(
                (position - self.start()) as u64,
            ),
    {
        if position > self.range.end {
            Err(IntoOffsetError::OutOfUpperBounds)
        } else if position < self.range.start {
            Err(IntoOffsetError::OutOfLowerBounds)
        } else {
            Ok(position - self.range.start)
        }
    }

    /// Seeks within the window and returns the new offset. The target is
    /// `start + n`, `end + d` or the current position plus `d`; a negative or
    /// overflowing target fails. A target past the store's length moves to
    /// that length, and one that then lies outside the window fails.
    pub fn seek(&mut self, to: SeekFrom) -> (r: Result<u64, StoreError>)
        requires
            old(self).wf(),
        ensures
            old(self).inner().reliable() ==> final(self).inner().reliable(),
            old(self).inner().reliable() && old(self).landing(to) is Some ==> r == Ok::<
                u64,
                StoreError,
            >((old(self).landing(to)->0 - old(self).start()) as u64),
            view_target(to, old(self).start(), old(self).end(), old(self).inner().pos()) is None
                && !(to matches SeekFrom::Current(_)) ==> r == Err::<u64, StoreError>(
                StoreError::InvalidInput,
            ) && *final(self) == *old(self),
            view_target(to, old(self).start(), old(self).end(), old(self).inner().pos()) is None
                && old(self).inner().reliable() ==> r == Err::<u64, StoreError>(
                StoreError::InvalidInput,
            ) && final(self).inner().pos() == old(self).inner().pos(),
            final(self).wf(),
            final(self).start() == old(self).start(),
            final(self).end() == old(self).end(),
            final(self).inner().bytes() == old(self).inner().bytes(),
            view_target(to, old(self).start(), old(self).end(), old(self).inner().pos()) is None
                ==> r is Err,
            r matches Ok(o) ==> {
                &&& view_target(
                    to,
                    old(self).start(),
                    old(self).end(),
                    old(self).inner().pos(),
                ) matches Some(t)
                &&& final(self).inner().pos() == min_int(
                    t as int,
                    old(self).inner().bytes().len() as int,
                )
                &&& final(self).in_window()
                &&& o == final(self).inner().pos() - final(self).start()
            },
            (view_target(to, old(self).start(), old(self).end(), old(self).inner().pos()) matches Some(
                t,
            ) && !(old(self).start() <= min_int(t as int, old(self).inner().bytes().len() as int)
                <= old(self).end())) ==> r is Err,
    {
        let (position, offset): (u64, i64) = match to {
            SeekFrom::Current(d) => (stream_position(&mut self.reader)?, d),
            SeekFrom::End(d) => (self.range.end, d),
            SeekFrom::Start(n) => {
                if self.range.start > u64::MAX - n {
                    return Err(StoreError::InvalidInput);
                }
                (self.range.start + n, 0)
            },
        };
        let destination = match apply_offset(position, offset) {
            Ok(p) => p,
            Err(OffsetError::Negative) => {
                return Err(StoreError::InvalidInput);
            },
        };
        let length = stream_len(&mut self.reader)?;
        let destination = if length < destination {
            length
        } else {
            destination
        };
        let resulting = self.reader.seek(SeekFrom::Start(destination))?;
        match self.position_into_offset(resulting) {
            Ok(o) => Ok(o),
            Err(_) => Err(StoreError::InvalidInput),
        }
    }

    /// The offset of the store's position, clamped to the store's length as a
    /// seek by zero does.
    pub fn stream_position(&mut self) -> (r: Result<u64, StoreError>)
        requires
            old(self).wf(),
        ensures
            old(self).inner().reliable() ==> final(self).inner().reliable(),
            old(self).inner().reliable() && old(self).start() <= old(self).here() <= old(self).end()
                ==> r == Ok::<u64, StoreError>((old(self).here() - old(self).start()) as u64),
            final(self).wf(),
            final(self).start() == old(self).start(),
            final(self).end() == old(self).end(),
            final(self).inner().bytes() == old(self).inner().bytes(),
            r matches Ok(o) ==> {
                &&& final(self).inner().pos() == min_int(
                    old(self).inner().pos() as int,
                    old(self).inner().bytes().len() as int,
                )
                &&& final(self).in_window()
                &&& o == final(self).inner().pos() - final(self).start()
            },
    {
        proof {
            if self.inner().reliable() {
                self.inner().lemma_reliable_bounds();
            }
        }
        self.seek(SeekFrom::Current(0))
    }

    /// The number of offsets the window allows, as far as the store reaches:
    /// the offset of the end, found by seeking there and back again.
    pub fn stream_len(&mut self) -> (r: Result<u64, StoreError>)
        requires
            old(self).wf(),
        ensures
            old(self).inner().reliable() ==> final(self).inner().reliable(),
            old(self).inner().reliable() && old(self).start() <= old(self).here() <= old(self).end()
                && old(self).start() <= old(self).inner().bytes().len() ==> r is Ok,
            r is Ok ==> final(self).inner().pos() == old(self).here(),
            final(self).wf(),
            final(self).start() == old(self).start(),
            final(self).end() == old(self).end(),
            final(self).inner().bytes() == old(self).inner().bytes(),
            r matches Ok(n) ==> {
                &&& n == min_int(
                    old(self).end() as int,
                    old(self).inner().bytes().len() as int,
                ) - old(self).start()
                &&& final(self).in_window()
            },
    {
        let position = self.stream_position()?;
        let length = self.seek(SeekFrom::End(0))?;
        if position != length {
            self.seek(SeekFrom::Start(position))?;
        }
        Ok(length)
    }

    /// The number of bytes between the store's position and the window's end.
    fn remaining_bytes(&mut self) -> (r: Result<u64, StoreError>)
        requires
            old(self).wf(),
        ensures
            old(self).inner().reliable() ==> final(self).inner().reliable(),
            old(self).inner().reliable() && old(self).start() <= old(self).here() <= old(self).end()
                ==> r is Ok,
            final(self).wf(),
            final(self).start() == old(self).start(),
            final(self).end() == old(self).end(),
            final(self).inner().bytes() == old(self).inner().bytes(),
            r matches Ok(n) ==> {
                &&& final(self).inner().pos() == min_int(
                    old(self).inner().pos() as int,
                    old(self).inner().bytes().len() as int,
                )
                &&& final(self).in_window()
                &&& n == final(self).end() - final(self).inner().pos()
            },
    {
        let current_offset = self.stream_position()?;
        let offset_end = match self.position_into_offset(self.range.end) {
            Ok(o) => o,
            Err(_) => {
                return Err(StoreError::InvalidInput);
            },
        };
        Ok(offset_end - current_offset)
    }

    /// Reads at most `amount` bytes, never past the window's end. An empty
    /// result means the window, or the store, is exhausted.
    pub fn read(&mut self, amount: usize) -> (r: Result<Vec<u8>, StoreError>)
        requires
            old(self).wf(),
        ensures
            old(self).inner().reliable() ==> final(self).inner().reliable(),
            old(self).inner().reliable() && old(self).start() <= old(self).here() <= old(self).end()
                ==> (r matches Ok(v) && v@.len() == full_read_len(
                min_int(old(self).end() as int, old(self).inner().bytes().len() as int) as nat,
                old(self).here() as nat,
                amount as nat,
            )),
            final(self).wf(),
            final(self).start() == old(self).start(),
            final(self).end() == old(self).end(),
            final(self).inner().bytes() == old(self).inner().bytes(),
            r matches Ok(v) ==> {
                let p = min_int(
                    old(self).inner().pos() as int,
                    old(self).inner().bytes().len() as int,
                );
                &&& old(self).start() <= p <= old(self).end()
                &&& v@.len() <= amount
                &&& p + v@.len() <= old(self).end()
                &&& p + v@.len() <= old(self).inner().bytes().len()
                &&& v@ == old(self).inner().bytes().subrange(p, p + v@.len())
                &&& final(self).inner().pos() == p + v@.len()
                &&& final(self).in_window()
                &&& (v@.len() == 0 && amount > 0) ==> (p == old(self).end() || p
                    == old(self).inner().bytes().len())
            },
    {
        let remaining = self.remaining_bytes()?;
        let remaining = u64_into_usize(remaining);
        let max_length = if remaining < amount {
            remaining
        } else {
            amount
        };
        if max_length == 0 {
            Ok(Vec::new())
        } else {
            self.reader.read(max_length)
        }
    }

    /// Writes the longest prefix of `buf` that fits before the window's end,
    /// and returns its length; at the end nothing is written.
    pub fn write(&mut self, buf: &[u8]) -> (r: Result<usize, StoreError>)
        requires
            old(self).wf(),
        ensures
            old(self).inner().reliable() ==> final(self).inner().reliable(),
            r is Err ==> final(self).inner().bytes() == old(self).inner().bytes(),
            old(self).inner().reliable() && old(self).inner().pos() >= old(self).end() ==> r
                == Ok::<usize, StoreError>(0),
            old(self).inner().reliable() && old(self).inner().pos() < old(self).end()
                && old(self).start() <= old(self).here() && old(self).end() <= usize::MAX ==> r
                == Ok::<usize, StoreError>(
                min_int(buf@.len() as int, old(self).end() - old(self).here()) as usize,
            ),
            final(self).wf(),
            final(self).start() == old(self).start(),
            final(self).end() == old(self).end(),
            r matches Ok(n) ==> {
                &&& n <= buf@.len()
                &&& old(self).inner().pos() >= old(self).end() ==> {
                    &&& n == 0
                    &&& final(self).inner().bytes() == old(self).inner().bytes()
                    &&& final(self).inner().pos() == old(self).inner().pos()
                }
                &&& old(self).inner().pos() < old(self).end() ==> {
                    let p = min_int(
                        old(self).inner().pos() as int,
                        old(self).inner().bytes().len() as int,
                    );
                    &&& old(self).start() <= p
                    &&& p + n <= old(self).end()
                    &&& final(self).inner().bytes() == spliced(
                        old(self).inner().bytes(),
                        p as nat,
                        buf@.take(n as int),
                    )
                    &&& final(self).inner().pos() == p + n
                    &&& final(self).in_window()
                }
            },
    {
        let absolute_position = stream_position(&mut self.reader)?;
        if absolute_position >= self.range.end {
            Ok(0)
        } else {
            let remaining = self.remaining_bytes()?;
            let remaining = u64_into_usize(remaining);
            let max_length = if remaining < buf.len() {
                remaining
            } else {
                buf.len()
            };
            let prefix = vstd::slice::slice_subrange(buf, 0, max_length);
            let written = self.reader.write(prefix)?;
            proof {
                assert(prefix@.take(written as int) =~= buf@.take(written as int));
            }
            Ok(written)
        }
    }

    /// Fills the whole of `buf` from the window; fails where the window or
    /// the store ends first.
    pub fn read_exact(&mut self, buf: &mut Vec<u8>) -> (r: Result<(), StoreError>)
        requires
            old(self).wf(),
        ensures
            old(self).inner().reliable() ==> final(self).inner().reliable(),
            old(buf)@.len() == 0 ==> r is Ok && *final(self) == *old(self),
            old(self).inner().reliable() && old(self).start() <= old(self).here() && old(self).here()
                + old(buf)@.len() <= min_int(
                old(self).end() as int,
                old(self).inner().bytes().len() as int,
            ) ==> r is Ok,
            final(self).wf(),
            final(self).start() == old(self).start(),
            final(self).end() == old(self).end(),
            final(self).inner().bytes() == old(self).inner().bytes(),
            final(buf)@.len() == old(buf)@.len(),
            r is Ok && old(buf)@.len() > 0 ==> {
                let p = min_int(
                    old(self).inner().pos() as int,
                    old(self).inner().bytes().len() as int,
                );
                &&& old(self).start() <= p
                &&& p + old(buf)@.len() <= old(self).end()
                &&& p + old(buf)@.len() <= old(self).inner().bytes().len()
                &&& final(buf)@ == old(self).inner().bytes().subrange(p, p + old(buf)@.len())
                &&& final(self).inner().pos() == p + old(buf)@.len()
            },
    {
        let n = buf.len();
        let ghost data = self.inner().bytes();
        let ghost p = min_int(self.inner().pos() as int, data.len() as int);
        let mut filled: usize = 0;
        while filled < n
            invariant
                self.wf(),
                self.start() == old(self).start(),
                self.end() == old(self).end(),
                self.inner().bytes() == data,
                data == old(self).inner().bytes(),
                p == min_int(old(self).inner().pos() as int, data.len() as int),
                filled <= n,
                n == buf@.len(),
                n == old(buf)@.len(),
                filled == 0 ==> *self == *old(self),
                old(self).inner().reliable() ==> self.inner().reliable(),
                old(self).inner().reliable() && old(self).start() <= old(self).here()
                    && old(self).here() + n <= min_int(
                    old(self).end() as int,
                    data.len() as int,
                ) ==> (filled == 0 || filled == n),
                filled > 0 ==> {
                    &&& self.inner().pos() == p + filled
                    &&& old(self).start() <= p
                    &&& p + filled <= old(self).end()
                    &&& p + filled <= data.len()
                },
                forall|j: int| 0 <= j < filled ==> #[trigger] buf@[j] == data[p + j],
            decreases n - filled,
        {
            let chunk = self.read(n - filled)?;
            if chunk.len() == 0 {
                return Err(StoreError::UnexpectedEof);
            }
            let mut i: usize = 0;
            while i < chunk.len()
                invariant
                    i <= chunk@.len(),
                    filled + chunk@.len() <= n,
                    n == buf@.len(),
                    p + filled + chunk@.len() <= data.len(),
                    forall|j: int| 0 <= j < filled ==> #[trigger] buf@[j] == data[p + j],
                    chunk@ == data.subrange(p + filled, p + filled + chunk@.len()),
                    forall|j: int| 0 <= j < i ==> #[trigger] buf@[filled + j] == chunk@[j],
                decreases chunk@.len() - i,
            {
                buf.set(filled + i, chunk[i]);
                i += 1;
            }
            proof {
                assert forall|j: int| 0 <= j < filled + chunk@.len() implies #[trigger] buf@[j]
                    == data[p + j] by {
                    if j >= filled {
                        assert(buf@[filled + (j - filled)] == chunk@[j - filled]);
                    }
                }
            }
            filled = filled + chunk.len();
        }
        proof {
            if n > 0 {
                assert(buf@ =~= data.subrange(p, p + n));
            }
        }
        Ok(())
    }

    /// Writes the whole of `buf` into the window; fails where the window
    /// ends first.
    pub fn write_all(&mut self, buf: &[u8]) -> (r: Result<(), StoreError>)
        requires
            old(self).wf(),
        ensures
            old(self).inner().reliable() ==> final(self).inner().reliable(),
            buf@.len() == 0 ==> r is Ok && *final(self) == *old(self),
            old(self).inner().reliable() && old(self).start() <= old(self).here()
                && old(self).inner().pos() + buf@.len() <= old(self).end() && old(self).end()
                <= usize::MAX ==> r is Ok,
            final(self).wf(),
            final(self).start() == old(self).start(),
            final(self).end() == old(self).end(),
            r is Ok && buf@.len() > 0 ==> {
                let p = min_int(
                    old(self).inner().pos() as int,
                    old(self).inner().bytes().len() as int,
                );
                &&& old(self).start() <= p
                &&& p + buf@.len() <= old(self).end()
                &&& final(self).inner().bytes() == spliced(old(self).inner().bytes(), p as nat, buf@)
                &&& final(self).inner().pos() == p + buf@.len()
            },
    {
        let n = buf.len();
        let ghost data = self.inner().bytes();
        let ghost p = min_int(self.inner().pos() as int, data.len() as int);
        let mut done: usize = 0;
        while done < n
            invariant
                self.wf(),
                self.start() == old(self).start(),
                self.end() == old(self).end(),
                data == old(self).inner().bytes(),
                p == min_int(old(self).inner().pos() as int, data.len() as int),
                done <= n,
                n == buf@.len(),
                done == 0 ==> *self == *old(self),
                old(self).inner().reliable() ==> self.inner().reliable(),
                old(self).inner().reliable() && old(self).start() <= old(self).here()
                    && old(self).inner().pos() + n <= old(self).end() && old(self).end()
                    <= usize::MAX ==> (done == 0 || done == n),
                done > 0 ==> {
                    &&& self.inner().pos() == p + done
                    &&& old(self).start() <= p
                    &&& p + done <= old(self).end()
                    &&& self.inner().bytes() == spliced(data, p as nat, buf@.take(done as int))
                    &&& self.inner().pos() <= self.inner().bytes().len()
                },
            decreases n - done,
        {
            let rest = vstd::slice::slice_subrange(buf, done, n);
            let ghost before = self.inner();
            let written = self.write(rest)?;
            if written == 0 {
                return Err(StoreError::WriteZero);
            }
            proof {
                if done > 0 {
                    assert(min_int(before.pos() as int, before.bytes().len() as int) == p + done);
                    assert(spliced(
                        spliced(data, p as nat, buf@.take(done as int)),
                        (p + done) as nat,
                        rest@.take(written as int),
                    ) =~= spliced(data, p as nat, buf@.take(done + written)));
                } else {
                    assert(rest@.take(written as int) =~= buf@.take(written as int));
                }
            }
            done = done + written;
        }
        proof {
            assert(buf@.take(n as int) =~= buf@);
        }
        Ok(())
    }
}

} // verus!
