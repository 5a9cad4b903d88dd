//! The byte store that an editor works on: a readable, writable and seekable
//! sequence of bytes with a current position.
use vstd::prelude::*;

verus! {

/// Where a seek is measured from.
#[derive(Debug, Clone, Copy, PartialEq, Eq, Structural)]
pub enum SeekFrom {
    /// An absolute position.
    Start(u64),
    /// A signed distance from the end.
    End(i64),
    /// A signed distance from the current position.
    Current(i64),
}

/// Why a store operation failed.
#[derive(Debug, Clone, Copy, PartialEq, Eq, Structural)]
pub enum StoreError {
    /// A seek or an offset computation would leave the valid positions.
    InvalidInput,
    /// The data ended before a buffer could be filled.
    UnexpectedEof,
    /// The store accepted no more bytes.
    WriteZero,
    /// The underlying device failed.
    Other,
}

/// The absolute position that a seek aims at; it may be negative or too large.
pub open spec fn seek_target(to: SeekFrom, len: nat, pos: nat) -> int {
    match to {
        SeekFrom::Start(n) => n as int,
        SeekFrom::End(d) => len + d,
        SeekFrom::Current(d) => pos + d,
    }
}

/// `s` with `d` written over it from index `at`. Where `d` is not empty, the
/// gap between the old end and `at`, if any, reads as zeros.
pub open spec fn spliced(s: Seq<u8>, at: nat, d: Seq<u8>) -> Seq<u8> {
    let len = if d.len() == 0 || s.len() >= at + d.len() {
        s.len() as int
    } else {
        (at + d.len()) as int
    };
    Seq::new(
        len as nat,
        |i: int|
            if at <= i < at + d.len() {
                d[i - at]
            } else if i < s.len() {
                s[i]
            } else {
                0u8
            },
    )
}

/// How many bytes a read of `amount` at `pos` gets where the store holds
/// `len` bytes and reads reach as far as the bytes do.
pub open spec fn full_read_len(len: nat, pos: nat, amount: nat) -> nat {
    if pos >= len {
        0
    } else if pos + amount <= len {
        amount
    } else {
        (len - pos) as nat
    }
}

/// A random-access byte container.
pub trait ByteStore: Sized {
    /// The bytes held.
    spec fn bytes(&self) -> Seq<u8>;

    /// The current absolute position.
    spec fn pos(&self) -> nat;

    /// Calls on this store do not fail: a read gets every byte asked for as
    /// far as the bytes reach, a seek to any target in `0..=u64::MAX`
    /// succeeds, and a write that stays within the bytes, or ends by
    /// `usize::MAX`, is taken whole.
    spec fn reliable(&self) -> bool;

    /// A reliable store's position and length fit in a `u64`.
    proof fn lemma_reliable_bounds(&self)
        requires
            self.reliable(),
        ensures
            self.pos() <= u64::MAX,
            self.bytes().len() <= u64::MAX,
    ;

    /// Reads at most `amount` bytes from the current position. An empty result
    /// for a non-zero `amount` means the position is at or past the end.
    fn read(&mut self, amount: usize) -> (r: Result<Vec<u8>, StoreError>)
        ensures
            final(self).bytes() == old(self).bytes(),
            old(self).reliable() ==> final(self).reliable(),
            old(self).reliable() ==> (r matches Ok(v) && v@.len() == full_read_len(
                old(self).bytes().len(),
                old(self).pos(),
                amount as nat,
            )),
            r matches Ok(v) ==> {
                &&& v@.len() <= amount
                &&& v@.len() > 0 ==> {
                    &&& old(self).pos() + v@.len() <= old(self).bytes().len()
                    &&& v@ == old(self).bytes().subrange(
                        old(self).pos() as int,
                        (old(self).pos() + v@.len()) as int,
                    )
                }
                &&& final(self).pos() == old(self).pos() + v@.len()
                &&& (v@.len() == 0 && amount > 0) ==> old(self).pos() >= old(self).bytes().len()
            },
    ;

    /// Writes a prefix of `buf` at the current position and moves past it.
    /// On failure nothing was written.
    fn write(&mut self, buf: &[u8]) -> (r: Result<usize, StoreError>)
        ensures
            r is Err ==> final(self).bytes() == old(self).bytes(),
            old(self).reliable() ==> final(self).reliable(),
            old(self).reliable() && (old(self).pos() + buf@.len() <= old(self).bytes().len()
                || old(self).pos() + buf@.len() <= usize::MAX) ==> r == Ok::<usize, StoreError>(
                buf@.len() as usize,
            ),
            r matches Ok(n) ==> {
                &&& n <= buf@.len()
                &&& final(self).bytes() == spliced(
                    old(self).bytes(),
                    old(self).pos(),
                    buf@.take(n as int),
                )
                &&& final(self).pos() == old(self).pos() + n
            },
    ;

    /// Moves the position; returns the new absolute position.
    fn seek(&mut self, to: SeekFrom) -> (r: Result<u64, StoreError>)
        ensures
            final(self).bytes() == old(self).bytes(),
            old(self).reliable() ==> final(self).reliable(),
            old(self).reliable() && 0 <= seek_target(to, old(self).bytes().len(), old(self).pos())
                <= u64::MAX ==> r is Ok,
            r matches Ok(p) ==> {
                &&& p as int == seek_target(to, old(self).bytes().len(), old(self).pos())
                &&& final(self).pos() == p
            },
    ;
}

/// `s` cut to `len` bytes, or extended to it by zeros.
pub open spec fn resized(s: Seq<u8>, len: nat) -> Seq<u8> {
    Seq::new(len, |i: int| if i < s.len() { s[i] } else { 0u8 })
}

/// A byte store held in memory, like a cursor over a vector.
pub struct MemoryStore {
    data: Vec<u8>,
    position: u64,
}

impl MemoryStore {
    /// A store over `data`, positioned at its start.
    pub fn new(data: Vec<u8>) -> (r: Self)
        ensures
            r.bytes() == data@,
            r.pos() == 0,
            r.reliable(),
    {
        MemoryStore { data, position: 0 }
    }

    /// The bytes held, giving up the store.
    pub fn into_inner(self) -> (r: Vec<u8>)
        ensures
            r@ == self.bytes(),
    {
        self.data
    }

    /// The bytes held.
    pub fn get_ref(&self) -> (r: &Vec<u8>)
        ensures
            r@ == self.bytes(),
    {
        &self.data
    }

    /// The current absolute position.
    pub fn position(&self) -> (r: u64)
        ensures
            r == self.pos(),
    {
        self.position
    }

    /// Cuts the bytes to `len`, or extends them by zeros. A position at or
    /// past the new end moves to the last byte kept.
    pub fn resize(&mut self, len: usize)
        ensures
            final(self).bytes() == resized(old(self).bytes(), len as nat),
            final(self).pos() == (if old(self).pos() >= len {
                if len == 0 {
                    0
                } else {
                    len - 1
                }
            } else {
                old(self).pos() as int
            }),
    {
        if self.position >= len as u64 {
            self.position = if len == 0 {
                0
            } else {
                (len - 1) as u64
            };
        }
        self.data.resize(len, 0u8);
        proof {
            assert(self.data@ =~= resized(old(self).data@, len as nat));
        }
    }
}

impl ByteStore for MemoryStore {
    closed spec fn bytes(&self) -> Seq<u8> {
        self.data@
    }

    closed spec fn pos(&self) -> nat {
        self.position as nat
    }

    open spec fn reliable(&self) -> bool {
        true
    }

    proof fn lemma_reliable_bounds(&self) {
        assert(self.data.len() == self.data@.len());
    }

    fn read(&mut self, amount: usize) -> (r: Result<Vec<u8>, StoreError>)
    {
        let len = self.data.len();
        let mut out: Vec<u8> = Vec::new();
        if self.position >= len as u64 {
            return Ok(out);
        }
        let start = self.position as usize;
        let available = len - start;
        let n = if amount < available {
            amount
        } else {
            available
        };
        let mut i: usize = 0;
        while i < n
            invariant
                i <= n,
                start + n <= len,
                len == self.data@.len(),
                out@ == self.data@.subrange(start as int, start + i),
            decreases n - i,
        {
            out.push(self.data[start + i]);
            i += 1;
        }
        self.position = (start + n) as u64;
        Ok(out)
    }

    fn write(&mut self, buf: &[u8]) -> (r: Result<usize, StoreError>) {
        let n = buf.len();
        proof {
            assert(self.data.len() == self.data@.len());
        }
        if n == 0 {
            proof {
                assert(self.data@ =~= spliced(self.data@, self.position as nat, buf@.take(0)));
            }
            return Ok(0);
        }
        if self.position > (usize::MAX - n) as u64 {
            return Err(StoreError::InvalidInput);
        }
        let start = self.position as usize;
        let ghost before = self.data@;
        while self.data.len() < start
            invariant
                self.data@.len() >= before.len(),
                self.data@.len() == before.len() || self.data@.len() <= start,
                forall|j: int|
                    0 <= j < self.data@.len() ==> #[trigger] self.data@[j] == (if j < before.len() {
                        before[j]
                    } else {
                        0u8
                    }),
            decreases start - self.data@.len(),
        {
            self.data.push(0u8);
        }
        let ghost padded = self.data@;
        proof {
            assert(self.data@ =~= spliced(padded, start as nat, buf@.take(0)));
        }
        let mut i: usize = 0;
        while i < n
            invariant
                i <= n,
                n == buf@.len(),
                start + n <= usize::MAX,
                padded.len() >= start,
                padded.len() == before.len() || padded.len() == start,
                padded.len() >= before.len(),
                forall|j: int|
                    0 <= j < padded.len() ==> #[trigger] padded[j] == (if j < before.len() {
                        before[j]
                    } else {
                        0u8
                    }),
                self.data@ == spliced(padded, start as nat, buf@.take(i as int)),
            decreases n - i,
        {
            if start + i < self.data.len() {
                self.data.set(start + i, buf[i]);
            } else {
                self.data.push(buf[i]);
            }
            i += 1;
            proof {
                assert(self.data@ =~= spliced(padded, start as nat, buf@.take(i as int)));
            }
        }
        self.position = (start + n) as u64;
        proof {
            assert(self.data@ =~= spliced(before, start as nat, buf@.take(n as int)));
        }
        Ok(n)
    }

    fn seek(&mut self, to: SeekFrom) -> (r: Result<u64, StoreError>)
        ensures
            0 <= seek_target(to, old(self).bytes().len(), old(self).pos()) <= u64::MAX <==> r is Ok,
    {
        let (base, delta): (u64, i64) = match to {
            SeekFrom::Start(n) => (n, 0),
            SeekFrom::End(d) => (self.data.len() as u64, d),
            SeekFrom::Current(d) => (self.position, d),
        };
        if delta >= 0 {
            if base > u64::MAX - delta as u64 {
                return Err(StoreError::InvalidInput);
            }
            self.position = base + delta as u64;
        } else {
            let back = (-(delta + 1)) as u64 + 1;
            if back > base {
                return Err(StoreError::InvalidInput);
            }
            self.position = base - back;
        }
        Ok(self.position)
    }
}

} // verus!
