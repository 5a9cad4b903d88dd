//! Reversible actions on a byte store, and a linear undo/redo log of them.
use crate::store::{ByteStore, StoreError};
use vstd::prelude::*;

verus! {

/// What an action does to the bytes of a store, in both directions.
pub trait Reversible {
    /// The bytes that applying this action to `before` leaves.
    spec fn applied(&self, before: Seq<u8>) -> Seq<u8>;

    /// The bytes that undoing this action leaves, starting from `after`.
    spec fn unapplied(&self, after: Seq<u8>) -> Seq<u8>;

    /// Whether this action refuses to be applied to `before`.
    spec fn rejects(&self, before: Seq<u8>) -> bool;

    /// Whether undoing this action from `after` only overwrites bytes that
    /// `after` holds.
    spec fn undoes_in_place(&self, after: Seq<u8>) -> bool;
}

/// Applying `a` and applying `b` agree on every byte sequence.
pub open spec fn same_forward<A: Reversible>(a: A, b: A) -> bool {
    &&& forall|s: Seq<u8>| #[trigger] a.applied(s) == b.applied(s)
    &&& forall|s: Seq<u8>| #[trigger] a.rejects(s) == b.rejects(s)
}

/// The effects of `a` and of `b`, both ways, agree on every byte sequence.
pub open spec fn same_effect<A: Reversible>(a: A, b: A) -> bool {
    &&& same_forward(a, b)
    &&& forall|s: Seq<u8>| #[trigger] a.unapplied(s) == b.unapplied(s)
    &&& forall|s: Seq<u8>| #[trigger] a.undoes_in_place(s) == b.undoes_in_place(s)
}

/// A reversible edit of a store `S`; `E` is a value the caller hands to each
/// application and undoing, to give the action what else it needs.
pub trait Action<S: ByteStore, E>: MemoryUsage + Reversible + Sized {
    /// Performs the action. A refusal comes before any change; on a reliable
    /// store an action fails only by refusing.
    fn apply(&mut self, data: &mut S, other: E) -> (r: Result<(), ActionError>)
        ensures
            same_forward(*final(self), *old(self)),
            old(data).reliable() ==> final(data).reliable(),
            old(data).reliable() && old(self).rejects(old(data).bytes()) ==> r == Err::<
                (),
                ActionError,
            >(ActionError::Invalid),
            old(data).reliable() && !old(self).rejects(old(data).bytes()) ==> r is Ok,
            r == Err::<(), ActionError>(ActionError::Invalid) ==> old(self).rejects(
                old(data).bytes(),
            ),
            old(self).rejects(old(data).bytes()) ==> {
                &&& r is Err
                &&& final(data).bytes() == old(data).bytes()
                &&& *final(self) == *old(self)
            },
            r is Ok ==> {
                &&& final(data).bytes() == old(self).applied(old(data).bytes())
                &&& final(self).unapplied(final(data).bytes()) == old(data).bytes()
                &&& final(self).undoes_in_place(final(data).bytes())
            },
    ;

    /// Undoes the action; meaningful only after it was applied.
    fn unapply(&mut self, data: &mut S, other: E) -> (r: Result<(), ActionError>)
        ensures
            same_effect(*final(self), *old(self)),
            old(data).reliable() ==> final(data).reliable(),
            old(data).reliable() && old(self).undoes_in_place(old(data).bytes()) ==> r is Ok,
            r is Ok ==> final(data).bytes() == old(self).unapplied(old(data).bytes()),
    ;
}

/// Something that can report about how much memory it uses.
pub trait MemoryUsage {
    /// The memory used, in bytes.
    spec fn usage(&self) -> nat;

    /// About how much memory this value uses, saturating at `usize::MAX`.
    fn memory_usage(&self) -> (r: usize)
        ensures
            r == capped(self.usage()),
    ;
}

/// `n`, or `usize::MAX` where `n` is larger.
pub open spec fn capped(n: nat) -> nat {
    if n > usize::MAX {
        usize::MAX as nat
    } else {
        n
    }
}

/// The memory used by all of `actions` together.
pub open spec fn total_usage<A: MemoryUsage>(actions: Seq<A>) -> nat
    decreases actions.len(),
{
    if actions.len() == 0 {
        0
    } else {
        total_usage(actions.drop_last()) + actions.last().usage()
    }
}

/// Why an action, or its undoing, failed.
#[derive(Debug, Clone, Copy, PartialEq, Eq, Structural)]
pub enum ActionError {
    /// The action cannot be applied to the store as it is.
    Invalid,
    /// The store failed.
    IoError(StoreError),
}

/// An ordered history of actions with a cursor: the actions before it have
/// been applied (the past), those from it on were undone (the future).
pub struct ActionList<A> {
    actions: Vec<A>,
    /// The number of actions in the past.
    index: usize,
    /// The bytes of the store around each action: `states[i]` before action
    /// `i`, `states[i + 1]` after it.
    states: Ghost<Seq<Seq<u8>>>,
}

impl<A> ActionList<A> {
    /// The actions, past and future.
    pub closed spec fn actions(&self) -> Seq<A> {
        self.actions@
    }

    /// The number of actions in the past.
    pub closed spec fn cursor(&self) -> nat {
        self.index as nat
    }

    /// The store's bytes between the actions: before the first, between each
    /// two, after the last.
    pub closed spec fn states(&self) -> Seq<Seq<u8>> {
        self.states@
    }

    /// The cursor lies among the actions, and there is one state more than
    /// actions.
    pub open spec fn wf(&self) -> bool {
        &&& self.cursor() <= self.actions().len()
        &&& self.states().len() == self.actions().len() + 1
    }

    /// The bytes at the cursor: what the store holds after the past.
    pub open spec fn current(&self) -> Seq<u8> {
        self.states()[self.cursor() as int]
    }

    /// The store holds the bytes at the cursor; an empty list is in step with
    /// any store.
    pub open spec fn synced(&self, bytes: Seq<u8>) -> bool {
        self.actions().len() == 0 || self.current() == bytes
    }

    /// An empty list.
    pub fn new() -> (r: Self)
        ensures
            r.wf(),
            r.actions().len() == 0,
            r.cursor() == 0,
    {
        ActionList { actions: Vec::new(), index: 0, states: Ghost(Seq::empty().push(Seq::empty())) }
    }

    /// An empty list with room for `capacity` actions.
    pub fn with_capacity(capacity: usize) -> (r: Self)
        ensures
            r.wf(),
            r.actions().len() == 0,
            r.cursor() == 0,
    {
        ActionList { actions: Vec::with_capacity(capacity), index: 0, states: Ghost(Seq::empty().push(Seq::empty())) }
    }

    /// The number of actions, past and future.
    pub fn len(&self) -> (r: usize)
        ensures
            r == self.actions().len(),
    {
        self.actions.len()
    }

    /// Whether there are no actions at all.
    pub fn is_empty(&self) -> (r: bool)
        ensures
            r == (self.actions().len() == 0),
    {
        self.actions.len() == 0
    }

    /// The number of actions in the past.
    pub fn past_len(&self) -> (r: usize)
        ensures
            r == self.cursor(),
    {
        self.index
    }

    /// The number of actions in the future.
    pub fn future_len(&self) -> (r: usize)
        requires
            self.wf(),
        ensures
            r == self.actions().len() - self.cursor(),
    {
        self.actions.len() - self.index
    }

    /// Whether there is nothing to undo.
    pub fn is_past_empty(&self) -> (r: bool)
        ensures
            r == (self.cursor() == 0),
    {
        self.past_len() == 0
    }

    /// Whether there is nothing to redo.
    pub fn is_future_empty(&self) -> (r: bool)
        requires
            self.wf(),
        ensures
            r == (self.cursor() == self.actions().len()),
    {
        self.future_len() == 0
    }

    /// Drops every action in the future.
    pub fn clear_future(&mut self)
        requires
            old(self).wf(),
        ensures
            final(self).wf(),
            final(self).actions() == old(self).actions().take(old(self).cursor() as int),
            final(self).cursor() == old(self).cursor(),
            final(self).states() == old(self).states().take(old(self).cursor() + 1 as int),
    {
        let mut length = self.actions.len();
        while length > self.index
            invariant
                self.index <= length,
                length == self.actions@.len(),
                self.index == old(self).index,
                self.states@ == old(self).states@,
                self.actions@ == old(self).actions@.take(length as int),
                length <= old(self).actions@.len(),
            decreases length,
        {
            self.actions.pop();
            length = self.actions.len();
        }
        self.states = Ghost(self.states@.take(self.index + 1 as int));
    }

    /// The index of the most recently applied action, if there is one.
    fn latest_action_index(&self) -> (r: Option<usize>)
        ensures
            self.cursor() == 0 ==> r is None,
            self.cursor() > 0 ==> r == Some((self.cursor() - 1) as usize),
    {
        if self.index == 0 {
            None
        } else {
            Some(self.index - 1)
        }
    }
}

impl<A: Reversible> ActionList<A> {
    /// Action `i` leads from state `i` to state `i + 1`, and its undoing back.
    pub open spec fn link(&self, i: int) -> bool {
        &&& self.forward_link(i)
        &&& self.actions()[i].unapplied(self.states()[i + 1]) == self.states()[i]
        &&& self.actions()[i].undoes_in_place(self.states()[i + 1])
    }

    /// Action `i` accepts state `i` and leads from it to state `i + 1`.
    pub open spec fn forward_link(&self, i: int) -> bool {
        &&& !self.actions()[i].rejects(self.states()[i])
        &&& self.actions()[i].applied(self.states()[i]) == self.states()[i + 1]
    }

    /// Every action links the state before it to the state after it, so the
    /// states are what replaying the actions from the first state gives.
    pub open spec fn consistent(&self) -> bool {
        forall|i: int| 0 <= i < self.actions().len() ==> #[trigger] self.link(i)
    }

    /// Consistent but for the way back over action `k`, which a failed
    /// application of it may have lost.
    pub open spec fn consistent_except(&self, k: int) -> bool {
        &&& forall|i: int| 0 <= i < self.actions().len() && i != k ==> #[trigger] self.link(i)
        &&& 0 <= k < self.actions().len() ==> self.forward_link(k)
    }

    /// `self` holds the actions of `other` with the same effects.
    pub open spec fn same_actions(&self, other: &Self) -> bool {
        &&& self.actions().len() == other.actions().len()
        &&& forall|i: int|
            0 <= i < self.actions().len() ==> same_effect(
                #[trigger] self.actions()[i],
                other.actions()[i],
            )
    }

    /// The most recently applied action, if there is one.
    fn latest_action_mut(&mut self) -> (r: Option<&mut A>)
        requires
            old(self).wf(),
        ensures
            old(self).cursor() == 0 ==> r is None && *final(self) == *old(self),
            old(self).cursor() > 0 ==> r is Some,
            r matches Some(a) ==> {
                &&& *a == old(self).actions()[old(self).cursor() - 1]
                &&& final(self).actions() == old(self).actions().update(
                    old(self).cursor() - 1,
                    *final(a),
                )
                &&& final(self).cursor() == old(self).cursor()
                &&& final(self).states() == old(self).states()
            },
    {
        let index = self.latest_action_index();
        if let Some(index) = index {
            Some(&mut self.actions[index])
        } else {
            None
        }
    }

    /// Undoes the most recently applied action. `Ok(None)` when there is none;
    /// on failure the cursor stays, so the undo can be tried again.
    pub fn undo<S: ByteStore, E>(&mut self, reader: &mut S, other: E) -> (r: Result<
        Option<()>,
        ActionError,
    >) where A: Action<S, E>
        requires
            old(self).wf(),
        ensures
            final(self).wf(),
            final(self).same_actions(old(self)),
            old(reader).reliable() ==> final(reader).reliable(),
            old(self).cursor() == 0 ==> {
                &&& r == Ok::<Option<()>, ActionError>(None)
                &&& *final(self) == *old(self)
                &&& *final(reader) == *old(reader)
            },
            old(self).cursor() > 0 && old(self).consistent() && old(self).synced(
                old(reader).bytes(),
            ) && old(reader).reliable() ==> r == Ok::<Option<()>, ActionError>(Some(())),
            old(self).cursor() > 0 && r is Ok ==> {
                &&& r == Ok::<Option<()>, ActionError>(Some(()))
                &&& final(self).cursor() == old(self).cursor() - 1
                &&& final(reader).bytes() == old(self).actions()[old(self).cursor() - 1].unapplied(
                    old(reader).bytes(),
                )
                &&& final(self).synced(final(reader).bytes())
            },
            r is Err ==> final(self).cursor() == old(self).cursor(),
            final(self).states().len() == old(self).states().len(),
            r is Err ==> final(self).states() == old(self).states(),
            old(self).consistent() && r is Err ==> final(self).consistent(),
            old(self).consistent() && old(self).synced(old(reader).bytes()) ==> {
                &&& final(self).consistent()
                &&& final(self).states() == old(self).states()
            },
    {
        if self.is_past_empty() {
            Ok(None)
        } else {
            let ghost before = *self;
            proof {
                if before.consistent() && before.synced(old(reader).bytes()) {
                    assert(before.link(before.cursor() - 1));
                }
            }
            let latest = self.latest_action_mut();
            let result = match latest {
                Some(action) => action.unapply(reader, other),
                None => Ok(()),
            };
            proof {
                assert forall|i: int| 0 <= i < self.actions().len() implies same_effect(
                    #[trigger] self.actions()[i],
                    before.actions()[i],
                ) by {}
            }
            proof {
                if before.consistent() {
                    assert forall|i: int| 0 <= i < self.actions().len() implies #[trigger] self.link(
                        i,
                    ) by {
                        assert(before.link(i));
                    }
                }
            }
            match result {
                Err(err) => Err(err),
                Ok(()) => {
                    self.index = self.index - 1;
                    proof {
                        if before.consistent() && before.synced(old(reader).bytes()) {
                            assert(before.link(self.index as int));
                            assert(self.states@.update(self.index as int, reader.bytes())
                                =~= self.states@);
                        }
                    }
                    self.states = Ghost(self.states@.update(self.index as int, reader.bytes()));
                    proof {
                        if before.consistent() && before.synced(old(reader).bytes()) {
                            assert forall|i: int| 0 <= i < self.actions().len() implies #[trigger] self.link(
                                i,
                            ) by {
                                assert(before.link(i));
                            }
                        }
                    }
                    Ok(Some(()))
                },
            }
        }
    }

    /// Re-applies the first action of the future. `Ok(None)` when there is
    /// none; on failure the cursor stays.
    pub fn redo<S: ByteStore, E>(&mut self, reader: &mut S, other: E) -> (r: Result<
        Option<()>,
        ActionError,
    >) where A: Action<S, E>
        requires
            old(self).wf(),
        ensures
            final(self).wf(),
            final(self).actions().len() == old(self).actions().len(),
            forall|i: int|
                0 <= i < old(self).actions().len() && i != old(self).cursor()
                    ==> #[trigger] final(self).actions()[i] == old(self).actions()[i],
            old(self).cursor() < old(self).actions().len() ==> same_forward(
                final(self).actions()[old(self).cursor() as int],
                old(self).actions()[old(self).cursor() as int],
            ),
            old(reader).reliable() ==> final(reader).reliable(),
            old(self).cursor() == old(self).actions().len() ==> {
                &&& r == Ok::<Option<()>, ActionError>(None)
                &&& *final(self) == *old(self)
                &&& *final(reader) == *old(reader)
            },
            old(self).cursor() < old(self).actions().len() && old(reader).reliable() ==> {
                &&& old(self).actions()[old(self).cursor() as int].rejects(old(reader).bytes())
                    ==> r == Err::<Option<()>, ActionError>(ActionError::Invalid)
                &&& !old(self).actions()[old(self).cursor() as int].rejects(old(reader).bytes())
                    ==> r == Ok::<Option<()>, ActionError>(Some(()))
            },
            old(self).cursor() < old(self).actions().len() ==> {
                &&& r == Err::<Option<()>, ActionError>(ActionError::Invalid)
                    ==> old(self).actions()[old(self).cursor() as int].rejects(old(reader).bytes())
                &&& old(self).actions()[old(self).cursor() as int].rejects(old(reader).bytes()) ==> {
                    &&& r is Err
                    &&& final(reader).bytes() == old(reader).bytes()
                }
            },
            old(self).cursor() < old(self).actions().len() && r is Ok ==> {
                &&& r == Ok::<Option<()>, ActionError>(Some(()))
                &&& final(self).cursor() == old(self).cursor() + 1
                &&& final(reader).bytes() == old(self).actions()[old(self).cursor() as int].applied(
                    old(reader).bytes(),
                )
                &&& final(self).synced(final(reader).bytes())
            },
            r is Err ==> final(self).cursor() == old(self).cursor(),
            final(self).states().len() == old(self).states().len(),
            r is Err ==> final(self).states() == old(self).states(),
            old(self).consistent_except(old(self).cursor() as int) && r is Err
                ==> final(self).consistent_except(old(self).cursor() as int),
            old(self).consistent_except(old(self).cursor() as int) && old(self).synced(
                old(reader).bytes(),
            ) && r is Ok ==> {
                &&& final(self).consistent()
                &&& final(self).states() == old(self).states()
            },
    {
        let length = self.actions.len();
        if self.index == length {
            // No actions to redo.
            Ok(None)
        } else {
            let ghost before = *self;
            let index = self.index;
            let result = self.actions[index].apply(reader, other);
            match result {
                Err(err) => {
                    proof {
                        if before.consistent_except(index as int) {
                            assert forall|i: int|
                                0 <= i < self.actions().len() && i != index implies #[trigger] self.link(
                                i,
                            ) by {
                                assert(before.link(i));
                            }
                            assert(before.forward_link(index as int));
                        }
                    }
                    Err(err)
                },
                Ok(()) => {
                    self.index = index + 1;
                    proof {
                        if before.consistent_except(index as int) && before.synced(
                            old(reader).bytes(),
                        ) {
                            assert(before.forward_link(index as int));
                            assert(self.states@.update(self.index as int, reader.bytes())
                                =~= self.states@);
                        }
                    }
                    self.states = Ghost(self.states@.update(self.index as int, reader.bytes()));
                    proof {
                        if before.consistent_except(index as int) && before.synced(
                            old(reader).bytes(),
                        ) {
                            assert forall|i: int|
                                0 <= i < self.actions().len() implies #[trigger] self.link(i) by {
                                if i != index {
                                    assert(before.link(i));
                                }
                            }
                        }
                    }
                    Ok(Some(()))
                },
            }
        }
    }

    /// Applies `action` and records it as the latest of the past, dropping the
    /// whole future. On failure the list is unchanged and the action is handed
    /// back; a refused action comes back as it was given.
    pub fn add<S: ByteStore, E>(&mut self, action: A, reader: &mut S, other: E) -> (r: Result<
        (),
        (A, ActionError),
    >) where A: Action<S, E>
        requires
            old(self).wf(),
        ensures
            final(self).wf(),
            old(reader).reliable() ==> final(reader).reliable(),
            r matches Err((_, ActionError::Invalid)) ==> action.rejects(old(reader).bytes()),
            old(reader).reliable() && action.rejects(old(reader).bytes()) ==> r matches Err(
                (_, ActionError::Invalid),
            ),
            old(reader).reliable() && !action.rejects(old(reader).bytes()) ==> r is Ok,
            action.rejects(old(reader).bytes()) ==> {
                &&& r matches Err((a, _)) && a == action
                &&& final(reader).bytes() == old(reader).bytes()
            },
            r matches Err((a, e)) ==> {
                &&& *final(self) == *old(self)
                &&& same_forward(a, action)
            },
            r is Ok ==> {
                &&& final(self).cursor() == old(self).cursor() + 1
                &&& final(self).cursor() == final(self).actions().len()
                &&& final(self).actions().len() == old(self).cursor() + 1
                &&& final(self).actions().take(old(self).cursor() as int)
                    == old(self).actions().take(old(self).cursor() as int)
                &&& same_forward(final(self).actions()[old(self).cursor() as int], action)
                &&& final(reader).bytes() == action.applied(old(reader).bytes())
                &&& final(self).states() == old(self).states().take(old(self).cursor() as int).push(
                    old(reader).bytes(),
                ).push(final(reader).bytes())
                &&& final(self).synced(final(reader).bytes())
                &&& final(self).link(old(self).cursor() as int)
                &&& old(self).consistent() && (old(self).cursor() == 0 || old(self).synced(
                    old(reader).bytes(),
                )) ==> final(self).consistent()
            },
    {
        let mut action = action;
        let ghost before = *self;
        match action.apply(reader, other) {
            Err(err) => Err((action, err)),
            Ok(()) => {
                self.clear_future();
                self.actions.push(action);
                let ghost past = self.states@.take(self.index as int);
                self.states = Ghost(past.push(old(reader).bytes()).push(reader.bytes()));
                // The new action is the last one, and the latest of the past.
                self.index = self.actions.len();
                proof {
                    assert(self.actions@.take(before.index as int) =~= before.actions@.take(
                        before.index as int,
                    ));
                    if before.consistent() && (before.index == 0 || before.synced(old(reader).bytes())) {
                        assert forall|i: int|
                            0 <= i < self.actions().len() implies #[trigger] self.link(i) by {
                            if i < before.index {
                                assert(before.link(i));
                                if i + 1 == before.index {
                                    assert(self.states()[i + 1] == before.states()[i + 1]);
                                }
                            }
                        }
                    }
                }
                Ok(())
            },
        }
    }
}

impl<A> Default for ActionList<A> {
    fn default() -> (r: Self)
        ensures
            r.wf(),
            r.actions().len() == 0,
            r.cursor() == 0,
    {
        Self::new()
    }
}

impl<A: MemoryUsage> MemoryUsage for ActionList<A> {
    open spec fn usage(&self) -> nat {
        total_usage(self.actions())
    }

    fn memory_usage(&self) -> (r: usize) {
        let mut total: usize = 0;
        let mut i: usize = 0;
        while i < self.actions.len()
            invariant
                i <= self.actions@.len(),
                total == capped(total_usage(self.actions@.take(i as int))),
            decreases self.actions@.len() - i,
        {
            let cost = self.actions[i].memory_usage();
            proof {
                assert(self.actions@.take(i + 1 as int).drop_last() =~= self.actions@.take(i as int));
            }
            total = total.saturating_add(cost);
            i += 1;
        }
        proof {
            assert(self.actions@.take(i as int) =~= self.actions@);
        }
        total
    }
}

/// The bytes left by undoing each of `actions`, the last one first, starting
/// from `bytes`.
pub open spec fn undo_all<A: Reversible>(actions: Seq<A>, bytes: Seq<u8>) -> Seq<u8>
    decreases actions.len(),
{
    if actions.len() == 0 {
        bytes
    } else {
        undo_all(actions.drop_last(), actions.last().unapplied(bytes))
    }
}

proof fn lemma_undo_prefix<A: Reversible>(log: ActionList<A>, k: nat)
    requires
        log.wf(),
        log.consistent(),
        k <= log.actions().len(),
    ensures
        undo_all(log.actions().take(k as int), log.states()[k as int]) == log.states()[0],
    decreases k,
{
    if k > 0 {
        assert(log.link(k - 1));
        assert(log.actions().take(k as int).drop_last() =~= log.actions().take(k - 1));
        lemma_undo_prefix(log, (k - 1) as nat);
    }
}

/// Undoing every applied action of a consistent log, latest first, turns the
/// bytes at the cursor back into the bytes from before the first action.
pub proof fn lemma_undo_all_restores<A: Reversible>(log: ActionList<A>)
    requires
        log.wf(),
        log.consistent(),
    ensures
        undo_all(log.actions().take(log.cursor() as int), log.current()) == log.states()[0],
{
    lemma_undo_prefix(log, log.cursor());
}

/// Redoing right after an undo gives back the bytes from before the undo:
/// `after` is the log as an undo in step with the store leaves it (same
/// actions and states, cursor one back).
pub proof fn lemma_redo_after_undo<A: Reversible>(before: ActionList<A>, after: ActionList<A>)
    requires
        before.wf(),
        before.consistent(),
        before.cursor() > 0,
        after.same_actions(&before),
        after.states() == before.states(),
        after.cursor() == before.cursor() - 1,
    ensures
        after.actions()[after.cursor() as int].applied(after.current()) == before.current(),
{
    assert(before.link(after.cursor() as int));
    assert(same_effect(after.actions()[after.cursor() as int], before.actions()[after.cursor() as int]));
}

/// After an action is added, nothing is left to redo: `after` is the log as a
/// successful add leaves it, and every action that was undone is gone.
pub proof fn lemma_add_leaves_no_future<A: Reversible>(before: ActionList<A>, after: ActionList<A>)
    requires
        before.wf(),
        after.wf(),
        after.cursor() == before.cursor() + 1,
        after.actions().len() == before.cursor() + 1,
    ensures
        after.cursor() == after.actions().len(),
        after.actions().len() - after.cursor() == 0,
        after.actions().len() <= before.actions().len() + 1,
{
}

} // verus!
