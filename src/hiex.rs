//! The editor: one store and the log of the edits made to it.
use crate::action::{Action, ActionError, ActionList, MemoryUsage, Reversible};
use crate::cast::u64_from_usize;
use crate::store::{full_read_len, spliced, ByteStore, SeekFrom, StoreError};
use crate::{read_exact, stream_len, write_all};
use vstd::prelude::*;

verus! {

/// An edit that writes `new_data` over the bytes at `position`, keeping the
/// bytes it replaced so that it can be undone. It never changes the store's
/// length: an edit that would reach the store's end is refused.
#[derive(Debug, Clone, PartialEq, Eq)]
pub struct EditAction {
    pub position: u64,
    previous_data: Vec<u8>,
    pub new_data: Vec<u8>,
}

impl EditAction {
    /// An edit of `new_data` at `position`, not applied yet.
    pub fn new(position: u64, new_data: Vec<u8>) -> (r: Self)
        ensures
            r.at() == position,
            r.replacement() == new_data@,
            r.previous().len() == 0,
    {
        EditAction { position, new_data, previous_data: Vec::new() }
    }

    /// The position edited.
    pub closed spec fn at(&self) -> u64 {
        self.position
    }

    /// The bytes written by the edit.
    pub closed spec fn replacement(&self) -> Seq<u8> {
        self.new_data@
    }

    /// The bytes that the last application replaced.
    pub closed spec fn previous(&self) -> Seq<u8> {
        self.previous_data@
    }
}

impl Reversible for EditAction {
    open spec fn applied(&self, before: Seq<u8>) -> Seq<u8> {
        spliced(before, self.at() as nat, self.replacement())
    }

    open spec fn unapplied(&self, after: Seq<u8>) -> Seq<u8> {
        spliced(after, self.at() as nat, self.previous())
    }

    open spec fn rejects(&self, before: Seq<u8>) -> bool {
        self.at() + self.replacement().len() >= before.len()
    }

    open spec fn undoes_in_place(&self, after: Seq<u8>) -> bool {
        self.previous().len() == 0 || self.at() + self.previous().len() <= after.len()
    }
}

/// Writing back the bytes that an in-bounds write replaced restores them.
proof fn lemma_splice_restores(s: Seq<u8>, at: nat, d: Seq<u8>)
    requires
        at + d.len() <= s.len(),
    ensures
        spliced(spliced(s, at, d), at, s.subrange(at as int, (at + d.len()) as int)) == s,
        spliced(s, at, d).len() == s.len(),
{
    assert(spliced(spliced(s, at, d), at, s.subrange(at as int, (at + d.len()) as int)) =~= s);
}

impl<S: ByteStore, E> Action<S, E> for EditAction {
    fn apply(&mut self, data: &mut S, _other: E) -> (r: Result<(), ActionError>)
        ensures
            final(self).at() == old(self).at(),
            final(self).replacement() == old(self).replacement(),
            r is Ok ==> {
                &&& final(self).previous() == old(data).bytes().subrange(
                    old(self).at() as int,
                    old(self).at() + old(self).replacement().len(),
                )
                &&& final(data).pos() == old(self).at() + old(self).replacement().len()
            },
    {
        let length = match stream_len(data) {
            Ok(l) => l,
            Err(e) => {
                return Err(ActionError::IoError(e));
            },
        };
        let new_data_len = u64_from_usize(self.new_data.len());
        if self.position.saturating_add(new_data_len) >= length {
            return Err(ActionError::Invalid);
        }
        let ghost before = data.bytes();
        if let Err(e) = data.seek(SeekFrom::Start(self.position)) {
            return Err(ActionError::IoError(e));
        }
        self.previous_data.resize(self.new_data.len(), 0u8);
        if let Err(e) = read_exact(data, &mut self.previous_data) {
            return Err(ActionError::IoError(e));
        }
        if let Err(e) = data.seek(SeekFrom::Start(self.position)) {
            return Err(ActionError::IoError(e));
        }
        if let Err(e) = write_all(data, self.new_data.as_slice()) {
            return Err(ActionError::IoError(e));
        }
        proof {
            if self.new_data@.len() == 0 {
                assert(self.previous_data@ =~= before.subrange(
                    self.position as int,
                    self.position as int,
                ));
            }
            lemma_splice_restores(before, self.position as nat, self.new_data@);
        }
        Ok(())
    }

    fn unapply(&mut self, data: &mut S, _other: E) -> (r: Result<(), ActionError>) {
        if let Err(e) = data.seek(SeekFrom::Start(self.position)) {
            return Err(ActionError::IoError(e));
        }
        if let Err(e) = write_all(data, self.previous_data.as_slice()) {
            return Err(ActionError::IoError(e));
        }
        Ok(())
    }
}

impl MemoryUsage for EditAction {
    open spec fn usage(&self) -> nat {
        8 + self.previous().len() + self.replacement().len()
    }

    fn memory_usage(&self) -> (r: usize) {
        8usize.saturating_add(self.previous_data.len()).saturating_add(self.new_data.len())
    }
}

/// An editor over a store `F`: reads go straight to the store, and every
/// change is an action of type `A` recorded in an undo/redo log.
pub struct Hiex<F, A> {
    reader: F,
    pub actions: ActionList<A>,
}

impl<F: ByteStore, A> Hiex<F, A> {
    /// The store.
    pub closed spec fn store(&self) -> F {
        self.reader
    }

    /// The log.
    pub closed spec fn log(&self) -> ActionList<A> {
        self.actions
    }

    /// The log is well formed.
    pub open spec fn wf(&self) -> bool {
        self.log().wf()
    }

    /// An editor over `reader`, with an empty log. Edits go to `reader`
    /// itself, so give it a copy where the source bytes must stay intact.
    pub fn from_reader(reader: F) -> (r: Result<Self, StoreError>)
        ensures
            r matches Ok(h) && h.wf() && h.store() == reader && h.log().actions().len() == 0
                && h.log().cursor() == 0,
    {
        Ok(Hiex { reader, actions: ActionList::new() })
    }

    /// The store, giving up the editor.
    pub fn into_inner(self) -> (r: F)
        ensures
            r == self.store(),
    {
        self.reader
    }

    /// The log, giving up the editor.
    pub fn into_inner_actions(self) -> (r: ActionList<A>)
        ensures
            r == self.log(),
    {
        self.actions
    }

    /// Moves the store's position; returns the new absolute position.
    pub fn seek(&mut self, to: SeekFrom) -> (r: Result<u64, StoreError>)
        ensures
            old(self).store().reliable() ==> final(self).store().reliable(),
            old(self).store().reliable() && 0 <= crate::store::seek_target(
                to,
                old(self).store().bytes().len(),
                old(self).store().pos(),
            ) <= u64::MAX ==> r is Ok,
            final(self).log() == old(self).log(),
            final(self).store().bytes() == old(self).store().bytes(),
            r matches Ok(p) ==> {
                &&& p as int == crate::store::seek_target(
                    to,
                    old(self).store().bytes().len(),
                    old(self).store().pos(),
                )
                &&& final(self).store().pos() == p
            },
    {
        self.reader.seek(to)
    }

    /// Reads at most `amount` bytes at the store's position.
    pub fn read(&mut self, amount: usize) -> (r: Result<Vec<u8>, StoreError>)
        ensures
            old(self).store().reliable() ==> final(self).store().reliable(),
            old(self).store().reliable() ==> (r matches Ok(v) && v@.len() == full_read_len(
                old(self).store().bytes().len(),
                old(self).store().pos(),
                amount as nat,
            )),
            final(self).log() == old(self).log(),
            final(self).store().bytes() == old(self).store().bytes(),
            r matches Ok(v) ==> {
                &&& v@.len() <= amount
                &&& v@.len() > 0 ==> {
                    &&& old(self).store().pos() + v@.len() <= old(self).store().bytes().len()
                    &&& v@ == old(self).store().bytes().subrange(
                        old(self).store().pos() as int,
                        (old(self).store().pos() + v@.len()) as int,
                    )
                }
                &&& final(self).store().pos() == old(self).store().pos() + v@.len()
                &&& (v@.len() == 0 && amount > 0) ==> old(self).store().pos() >= old(self).store().bytes().len()
            },
    {
        self.reader.read(amount)
    }

    /// The store's absolute position.
    pub fn position(&mut self) -> (r: Result<u64, StoreError>)
        ensures
            old(self).store().reliable() ==> final(self).store().reliable(),
            old(self).store().reliable() ==> r is Ok,
            final(self).log() == old(self).log(),
            final(self).store().bytes() == old(self).store().bytes(),
            r matches Ok(p) ==> p == old(self).store().pos() && final(self).store().pos() == p,
    {
        proof {
            if self.store().reliable() {
                self.store().lemma_reliable_bounds();
            }
        }
        self.seek(SeekFrom::Current(0))
    }

    /// The store's length, found by seeking to its end and back again.
    pub fn length(&mut self) -> (r: Result<u64, StoreError>)
        ensures
            old(self).store().reliable() ==> final(self).store().reliable(),
            old(self).store().reliable() ==> r is Ok,
            final(self).log() == old(self).log(),
            final(self).store().bytes() == old(self).store().bytes(),
            r matches Ok(n) ==> {
                &&& n == old(self).store().bytes().len()
                &&& final(self).store().pos() == old(self).store().pos()
            },
    {
        proof {
            if self.store().reliable() {
                self.store().lemma_reliable_bounds();
            }
        }
        let position = self.position()?;
        let length = self.seek(SeekFrom::End(0))?;
        if position != length {
            self.seek(SeekFrom::Start(position))?;
        }
        Ok(length)
    }

    /// Fills the whole of `buf` from `position` on.
    pub fn read_at(&mut self, position: u64, buf: &mut Vec<u8>) -> (r: Result<(), StoreError>)
        ensures
            old(self).store().reliable() ==> final(self).store().reliable(),
            old(self).store().reliable() && position + old(buf)@.len()
                <= old(self).store().bytes().len() ==> r is Ok,
            old(self).store().reliable() && old(buf)@.len() == 0 ==> r is Ok,
            r is Ok ==> final(self).store().pos() == position + old(buf)@.len(),
            final(self).log() == old(self).log(),
            final(self).store().bytes() == old(self).store().bytes(),
            final(buf)@.len() == old(buf)@.len(),
            r is Ok && old(buf)@.len() > 0 ==> {
                &&& position + old(buf)@.len() <= old(self).store().bytes().len()
                &&& final(buf)@ == old(self).store().bytes().subrange(
                    position as int,
                    position + old(buf)@.len(),
                )
            },
            old(buf)@.len() > 0 && position + old(buf)@.len() > old(self).store().bytes().len()
                ==> r is Err,
    {
        self.seek(SeekFrom::Start(position))?;
        read_exact(&mut self.reader, buf)
    }

    /// Reads from the store's position until `amount` bytes are collected or
    /// the store ends; fewer bytes than asked for is no error.
    pub fn read_amount(&mut self, amount: usize) -> (r: Result<Vec<u8>, StoreError>)
        ensures
            old(self).store().reliable() ==> final(self).store().reliable(),
            amount == 0 ==> (r matches Ok(v) && v@.len() == 0) && *final(self) == *old(self),
            old(self).store().reliable() ==> r is Ok,
            r matches Ok(v) ==> final(self).store().pos() == old(self).store().pos() + v@.len(),
            final(self).log() == old(self).log(),
            final(self).store().bytes() == old(self).store().bytes(),
            r matches Ok(v) ==> v@ == window(
                old(self).store().bytes(),
                old(self).store().pos(),
                amount as nat,
            ),
    {
        let ghost start = self.reader.pos();
        let ghost data = self.reader.bytes();
        let mut buffer: Vec<u8> = Vec::new();
        while buffer.len() < amount
            invariant
                buffer@.len() <= amount,
                self.actions == old(self).log(),
                data == old(self).store().bytes(),
                start == old(self).store().pos(),
                self.reader.bytes() == data,
                old(self).store().reliable() ==> self.reader.reliable(),
                amount == 0 ==> *self == *old(self),
                self.reader.pos() == (start + buffer@.len()) as int,
                buffer@.len() > 0 ==> start + buffer@.len() <= data.len(),
                buffer@.len() > 0 ==> buffer@ == data.subrange(
                    start as int,
                    (start + buffer@.len()) as int,
                ),
            decreases amount - buffer@.len(),
        {
            let chunk = self.reader.read(amount - buffer.len())?;
            if chunk.len() == 0 {
                proof {
                    assert(window(data, start, amount as nat) =~= buffer@);
                }
                return Ok(buffer);
            }
            let mut i: usize = 0;
            let ghost prefix = buffer@;
            while i < chunk.len()
                invariant
                    i <= chunk@.len(),
                    prefix.len() + chunk@.len() <= amount,
                    buffer@ == prefix + chunk@.take(i as int),
                decreases chunk@.len() - i,
            {
                buffer.push(chunk[i]);
                i += 1;
            }
            proof {
                assert(chunk@.take(chunk@.len() as int) =~= chunk@);
                assert(buffer@ =~= data.subrange(start as int, (start + buffer@.len()) as int));
            }
        }
        proof {
            assert(window(data, start, amount as nat) =~= buffer@);
        }
        Ok(buffer)
    }

    /// Reads from `position` until `amount` bytes are collected or the store
    /// ends.
    pub fn read_amount_at(&mut self, position: u64, amount: usize) -> (r: Result<
        Vec<u8>,
        StoreError,
    >)
        ensures
            old(self).store().reliable() ==> final(self).store().reliable(),
            old(self).store().reliable() ==> r is Ok,
            r matches Ok(v) ==> final(self).store().pos() == position + v@.len(),
            final(self).log() == old(self).log(),
            final(self).store().bytes() == old(self).store().bytes(),
            r matches Ok(v) ==> v@ == window(old(self).store().bytes(), position as nat, amount as nat),
    {
        self.seek(SeekFrom::Start(position))?;
        self.read_amount(amount)
    }

    /// Writes every byte of the store, from its start, to `writer` at the
    /// writer's position. This is the one way edits leave the editor.
    pub fn save_to<W: ByteStore>(&mut self, writer: &mut W) -> (r: Result<(), StoreError>)
        ensures
            old(self).store().reliable() ==> final(self).store().reliable(),
            old(writer).reliable() ==> final(writer).reliable(),
            old(self).store().reliable() && old(writer).reliable() && old(writer).pos()
                + old(self).store().bytes().len() <= usize::MAX ==> r is Ok,
            r is Ok ==> final(self).store().pos() == old(self).store().bytes().len(),
            final(self).log() == old(self).log(),
            final(self).store().bytes() == old(self).store().bytes(),
            r is Ok ==> final(writer).bytes() == spliced(
                old(writer).bytes(),
                old(writer).pos(),
                old(self).store().bytes(),
            ),
    {
        self.seek(SeekFrom::Start(0))?;
        let ghost data = self.reader.bytes();
        let ghost at = writer.pos();
        let ghost base = writer.bytes();
        loop
            invariant
                self.actions == old(self).log(),
                data == old(self).store().bytes(),
                base == old(writer).bytes(),
                at == old(writer).pos(),
                self.reader.bytes() == data,
                old(self).store().reliable() ==> self.reader.reliable(),
                old(writer).reliable() ==> writer.reliable(),
                self.reader.pos() <= data.len(),
                writer.pos() == at + self.reader.pos(),
                writer.bytes() == spliced(base, at, data.take(self.reader.pos() as int)),
            decreases data.len() - self.reader.pos(),
        {
            let ghost copied = self.reader.pos();
            let chunk = self.reader.read(8192)?;
            if chunk.len() == 0 {
                proof {
                    assert(data.take(copied as int) =~= data);
                }
                return Ok(());
            }
            write_all(writer, chunk.as_slice())?;
            proof {
                lemma_spliced_extend(base, at, data, copied, chunk@.len());
            }
        }
    }
}

impl<F: ByteStore, A: Reversible> Hiex<F, A> {
    /// The store holds what replaying the log's past gives, and the log is
    /// consistent.
    pub open spec fn in_sync(&self) -> bool {
        &&& self.log().consistent()
        &&& self.log().synced(self.store().bytes())
    }

    /// Applies `action` to the store and records it; see [`ActionList::add`].
    pub fn add_action<E>(&mut self, action: A, other: E) -> (r: Result<(), (A, ActionError)>) where
        A: Action<F, E>,
        requires
            old(self).wf(),
        ensures
            old(self).store().reliable() ==> final(self).store().reliable(),
            old(self).store().reliable() && action.rejects(old(self).store().bytes()) ==> r matches Err(
                (_, ActionError::Invalid),
            ),
            old(self).store().reliable() && !action.rejects(old(self).store().bytes()) ==> r is Ok,
            final(self).wf(),
            r matches Err((_, ActionError::Invalid)) ==> action.rejects(old(self).store().bytes()),
            action.rejects(old(self).store().bytes()) ==> {
                &&& r matches Err((a, _)) && a == action
                &&& final(self).store().bytes() == old(self).store().bytes()
            },
            r is Err ==> final(self).log() == old(self).log(),
            r is Ok ==> {
                &&& final(self).log().cursor() == old(self).log().cursor() + 1
                &&& final(self).log().cursor() == final(self).log().actions().len()
                &&& final(self).store().bytes() == action.applied(old(self).store().bytes())
                &&& final(self).log().states() == old(self).log().states().take(
                    old(self).log().cursor() as int,
                ).push(old(self).store().bytes()).push(final(self).store().bytes())
            },
            old(self).in_sync() && r is Ok ==> final(self).in_sync(),
    {
        self.actions.add(action, &mut self.reader, other)
    }

    /// Undoes the latest edit; `Ok(None)` when there is none.
    pub fn undo<E>(&mut self, other: E) -> (r: Result<Option<()>, ActionError>) where
        A: Action<F, E>,
        requires
            old(self).wf(),
        ensures
            old(self).store().reliable() ==> final(self).store().reliable(),
            old(self).log().cursor() == 0 ==> final(self).store() == old(self).store(),
            old(self).log().cursor() > 0 && old(self).in_sync() && old(self).store().reliable()
                ==> r == Ok::<Option<()>, ActionError>(Some(())),
            final(self).wf(),
            old(self).log().cursor() == 0 ==> r == Ok::<Option<()>, ActionError>(None)
                && final(self).store().bytes() == old(self).store().bytes(),
            old(self).log().cursor() > 0 && r is Ok ==> {
                &&& r == Ok::<Option<()>, ActionError>(Some(()))
                &&& final(self).log().cursor() == old(self).log().cursor() - 1
                &&& final(self).store().bytes() == old(self).log().actions()[old(self).log().cursor() - 1].unapplied(old(self).store().bytes())
            },
            r is Err ==> final(self).log().cursor() == old(self).log().cursor(),
            old(self).in_sync() && r is Ok ==> final(self).in_sync(),
            old(self).in_sync() && r == Ok::<Option<()>, ActionError>(Some(())) ==> {
                &&& final(self).log().states() == old(self).log().states()
                &&& final(self).store().bytes() == old(self).log().states()[final(self).log().cursor() as int]
            },
    {
        self.actions.undo(&mut self.reader, other)
    }

    /// Re-applies the latest undone edit; `Ok(None)` when there is none.
    pub fn redo<E>(&mut self, other: E) -> (r: Result<Option<()>, ActionError>) where
        A: Action<F, E>,
        requires
            old(self).wf(),
        ensures
            old(self).store().reliable() ==> final(self).store().reliable(),
            old(self).log().cursor() == old(self).log().actions().len() ==> final(self).store()
                == old(self).store(),
            old(self).log().cursor() < old(self).log().actions().len() && old(self).in_sync()
                && old(self).store().reliable() ==> r == Ok::<Option<()>, ActionError>(Some(())),
            final(self).wf(),
            old(self).log().cursor() == old(self).log().actions().len() ==> r == Ok::<
                Option<()>,
                ActionError,
            >(None) && final(self).store().bytes() == old(self).store().bytes(),
            old(self).log().cursor() < old(self).log().actions().len() && r is Ok ==> {
                &&& r == Ok::<Option<()>, ActionError>(Some(()))
                &&& final(self).log().cursor() == old(self).log().cursor() + 1
                &&& final(self).store().bytes() == old(self).log().actions()[old(self).log().cursor() as int].applied(old(self).store().bytes())
            },
            r is Err ==> final(self).log().cursor() == old(self).log().cursor(),
            old(self).in_sync() && r is Ok ==> final(self).in_sync(),
            old(self).in_sync() && r == Ok::<Option<()>, ActionError>(Some(())) ==> {
                &&& final(self).log().states() == old(self).log().states()
                &&& final(self).store().bytes() == old(self).log().states()[final(self).log().cursor() as int]
            },
    {
        proof {
            if self.log().consistent() && self.log().cursor() < self.log().actions().len() {
                assert(self.log().link(self.log().cursor() as int));
            }
        }
        self.actions.redo(&mut self.reader, other)
    }
}

/// The bytes from `at` on, at most `amount` of them, as far as `s` reaches.
pub open spec fn window(s: Seq<u8>, at: nat, amount: nat) -> Seq<u8> {
    if at >= s.len() {
        Seq::empty()
    } else if at + amount <= s.len() {
        s.subrange(at as int, (at + amount) as int)
    } else {
        s.subrange(at as int, s.len() as int)
    }
}

/// Copying the next `n` bytes of `d` extends a copy of its first `k` bytes.
proof fn lemma_spliced_extend(s: Seq<u8>, at: nat, d: Seq<u8>, k: nat, n: nat)
    requires
        k + n <= d.len(),
    ensures
        spliced(spliced(s, at, d.take(k as int)), at + k, d.subrange(k as int, (k + n) as int))
            == spliced(s, at, d.take((k + n) as int)),
{
    assert(spliced(spliced(s, at, d.take(k as int)), at + k, d.subrange(k as int, (k + n) as int))
        =~= spliced(s, at, d.take((k + n) as int)));
}

} // verus!
