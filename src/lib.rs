//! A byte-oriented editing core: a range-constrained view over a seekable
//! byte store, reversible edit actions and an undo/redo action log.
use crate::store::{spliced, ByteStore, SeekFrom, StoreError};
use vstd::prelude::*;

pub mod action;
mod cast;
pub mod constrained_wrapper;
pub mod hiex;
pub mod store;
pub mod truncate;

pub use crate::hiex::{EditAction, Hiex};

verus! {

/// The current absolute position of `seeker`, found by seeking nowhere.
pub fn stream_position<S: ByteStore>(seeker: &mut S) -> (r: Result<u64, StoreError>)
    ensures
        final(seeker).bytes() == old(seeker).bytes(),
        old(seeker).reliable() ==> final(seeker).reliable() && r is Ok,
        r matches Ok(p) ==> p == old(seeker).pos() && final(seeker).pos() == p,
{
    proof {
        if seeker.reliable() {
            seeker.lemma_reliable_bounds();
        }
    }
    seeker.seek(SeekFrom::Current(0))
}

/// The length of `seeker`, found by seeking to its end and back again. On
/// failure the position is left unspecified.
pub fn stream_len<S: ByteStore>(seeker: &mut S) -> (r: Result<u64, StoreError>)
    ensures
        final(seeker).bytes() == old(seeker).bytes(),
        old(seeker).reliable() ==> final(seeker).reliable() && r is Ok,
        r matches Ok(n) ==> {
            &&& n == old(seeker).bytes().len()
            &&& final(seeker).pos() == old(seeker).pos()
        },
{
    proof {
        if seeker.reliable() {
            seeker.lemma_reliable_bounds();
        }
    }
    let position = stream_position(seeker)?;
    let length = seeker.seek(SeekFrom::End(0))?;
    if position != length {
        seeker.seek(SeekFrom::Start(position))?;
    }
    Ok(length)
}

/// Fills the whole of `buf` from the current position of `store`.
pub fn read_exact<S: ByteStore>(store: &mut S, buf: &mut Vec<u8>) -> (r: Result<(), StoreError>)
    ensures
        final(store).bytes() == old(store).bytes(),
        final(buf)@.len() == old(buf)@.len(),
        old(store).reliable() ==> final(store).reliable(),
        old(buf)@.len() == 0 ==> r is Ok,
        old(store).reliable() && old(store).pos() + old(buf)@.len() <= old(store).bytes().len()
            ==> r is Ok,
        r is Ok ==> final(store).pos() == old(store).pos() + old(buf)@.len(),
        r is Ok && old(buf)@.len() > 0 ==> {
            &&& old(store).pos() + old(buf)@.len() <= old(store).bytes().len()
            &&& final(buf)@ == old(store).bytes().subrange(
                old(store).pos() as int,
                (old(store).pos() + old(buf)@.len()) as int,
            )
        },
        old(buf)@.len() > 0 && old(store).pos() + old(buf)@.len() > old(store).bytes().len()
            ==> r is Err,
{
    let n = buf.len();
    let ghost start = store.pos();
    let ghost data = store.bytes();
    let mut filled: usize = 0;
    while filled < n
        invariant
            filled <= n,
            n == buf@.len(),
            n == old(buf)@.len(),
            data == old(store).bytes(),
            start == old(store).pos(),
            store.bytes() == data,
            old(store).reliable() ==> store.reliable(),
            store.pos() == start + filled,
            filled > 0 ==> start + filled <= data.len(),
            forall|j: int| 0 <= j < filled ==> #[trigger] buf@[j] == data[start + j],
        decreases n - filled,
    {
        let chunk = store.read(n - filled)?;
        if chunk.len() == 0 {
            return Err(StoreError::UnexpectedEof);
        }
        let mut i: usize = 0;
        while i < chunk.len()
            invariant
                i <= chunk@.len(),
                filled + chunk@.len() <= n,
                n == buf@.len(),
                start + filled + chunk@.len() <= data.len(),
                forall|j: int| 0 <= j < filled ==> #[trigger] buf@[j] == data[start + j],
                chunk@ == data.subrange(start + filled, start + filled + chunk@.len()),
                forall|j: int| 0 <= j < i ==> #[trigger] buf@[filled + j] == chunk@[j],
            decreases chunk@.len() - i,
        {
            buf.set(filled + i, chunk[i]);
            i += 1;
        }
        proof {
            assert forall|j: int| 0 <= j < filled + chunk@.len() implies #[trigger] buf@[j] == data[start
                + j] by {
                if j >= filled {
                    assert(buf@[filled + (j - filled)] == chunk@[j - filled]);
                }
            }
        }
        filled = filled + chunk.len();
    }
    proof {
        if n > 0 {
            assert(buf@ =~= data.subrange(start as int, start + n));
        }
    }
    Ok(())
}

/// Writes the whole of `buf` at the current position of `store`.
pub fn write_all<S: ByteStore>(store: &mut S, buf: &[u8]) -> (r: Result<(), StoreError>)
    ensures
        old(store).reliable() ==> final(store).reliable(),
        buf@.len() == 0 ==> r is Ok,
        old(store).reliable() && (old(store).pos() + buf@.len() <= old(store).bytes().len()
            || old(store).pos() + buf@.len() <= usize::MAX) ==> r is Ok,
        r is Ok ==> {
            &&& final(store).bytes() == spliced(old(store).bytes(), old(store).pos(), buf@)
            &&& final(store).pos() == old(store).pos() + buf@.len()
        },
{
    let n = buf.len();
    let ghost start = store.pos();
    let ghost data = store.bytes();
    let mut done: usize = 0;
    while done < n
        invariant
            done <= n,
            n == buf@.len(),
            data == old(store).bytes(),
            start == old(store).pos(),
            old(store).reliable() ==> store.reliable(),
            old(store).reliable() && (start + n <= data.len() || start + n <= usize::MAX) ==> (done
                == 0 || done == n),
            store.pos() == start + done,
            store.bytes() == spliced(data, start, buf@.take(done as int)),
        decreases n - done,
    {
        let rest = vstd::slice::slice_subrange(buf, done, n);
        let written = store.write(rest)?;
        if written == 0 {
            return Err(StoreError::WriteZero);
        }
        proof {
            lemma_spliced_twice(data, start, buf@, done as nat, written as nat);
        }
        done = done + written;
    }
    proof {
        assert(buf@.take(n as int) =~= buf@);
    }
    Ok(())
}

proof fn lemma_spliced_twice(s: Seq<u8>, at: nat, d: Seq<u8>, a: nat, b: nat)
    requires
        a + b <= d.len(),
    ensures
        spliced(
            spliced(s, at, d.take(a as int)),
            at + a,
            d.subrange(a as int, d.len() as int).take(b as int),
        ) == spliced(s, at, d.take((a + b) as int)),
{
    assert(spliced(
        spliced(s, at, d.take(a as int)),
        at + a,
        d.subrange(a as int, d.len() as int).take(b as int),
    ) =~= spliced(s, at, d.take((a + b) as int)));
}

} // verus!
