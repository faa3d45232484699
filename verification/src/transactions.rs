//! Transactions: a log of what must be undone, and a state that says
//! whether it will be.
//!
//! Nothing here touches the disk. Whoever creates a file or a directory
//! records the operation that removes it again; whoever lets go of a
//! transaction asks it by `rollback` what is to be removed, and in which
//! order.

use vstd::prelude::*;
use std::marker::PhantomData;

verus! {

/// An operation that undoes a creation.
#[derive(Debug, Clone, PartialEq, Eq)]
pub enum RollbackOperation {
    /// Delete a single file.
    RemoveFile(String),
    /// Remove a directory and everything under it.
    RemoveDir(String),
}

pub enum UndoView {
    RemoveFile(Seq<char>),
    RemoveDir(Seq<char>),
}

impl View for RollbackOperation {
    type V = UndoView;

    open spec fn view(&self) -> UndoView {
        match self {
            RollbackOperation::RemoveFile(path) => UndoView::RemoveFile(path@),
            RollbackOperation::RemoveDir(path) => UndoView::RemoveDir(path@),
        }
    }
}

/// The views of a list of operations.
pub open spec fn undo_views(operations: Seq<RollbackOperation>) -> Seq<UndoView> {
    Seq::new(operations.len(), |i: int| operations[i]@)
}

/// The state of a transaction that is still open.
#[derive(Debug)]
pub struct Active;

/// The state of a transaction that was committed.
#[derive(Debug)]
pub struct Committed;

/// The state of a transaction that was canceled.
#[derive(Debug)]
pub struct Canceled;

/// A state says whether a transaction that is let go of in it undoes what
/// it has recorded.
pub trait TransactionState {
    spec fn rolls_back() -> bool;

    fn should_rollback() -> (b: bool)
        ensures
            b == Self::rolls_back(),
    ;
}

impl TransactionState for Active {
    open spec fn rolls_back() -> bool {
        true
    }

    fn should_rollback() -> (b: bool) {
        true
    }
}

impl TransactionState for Committed {
    open spec fn rolls_back() -> bool {
        false
    }

    fn should_rollback() -> (b: bool) {
        false
    }
}

impl TransactionState for Canceled {
    open spec fn rolls_back() -> bool {
        true
    }

    fn should_rollback() -> (b: bool) {
        true
    }
}

/// What letting go of a transaction undoes: in a state that rolls back, the
/// recorded operations from the latest to the earliest; in the committed
/// state, nothing.
pub open spec fn replayed(rolls_back: bool, log: Seq<UndoView>) -> Seq<UndoView> {
    if rolls_back {
        log.reverse()
    } else {
        Seq::empty()
    }
}

/// A transaction in the state `State`.
#[derive(Debug)]
pub struct Transaction<State: TransactionState> {
    rollback_operations: Vec<RollbackOperation>,
    state: PhantomData<State>,
}

/// How a transaction ended.
#[derive(Debug)]
pub enum FinalTransactionState {
    Committed(Transaction<Committed>),
    Canceled(Transaction<Canceled>),
}

impl<State: TransactionState> Transaction<State> {
    /// The recorded operations, in the order they were recorded.
    pub closed spec fn log(&self) -> Seq<UndoView> {
        undo_views(self.rollback_operations@)
    }

    /// What letting go of the transaction now would undo.
    pub open spec fn pending(&self) -> Seq<UndoView> {
        replayed(State::rolls_back(), self.log())
    }

    /// Takes out what is to be undone when the transaction is let go of:
    /// in a state that rolls back, every recorded operation, the latest
    /// first; otherwise nothing, and the log stays as it is.
    pub fn rollback(&mut self) -> (plan: Vec<RollbackOperation>)
        ensures
            undo_views(plan@) == old(self).pending(),
            plan.len() == old(self).pending().len(),
            State::rolls_back() ==> final(self).log().len() == 0,
            !State::rolls_back() ==> final(self).log() == old(self).log(),
    {
        let mut plan: Vec<RollbackOperation> = Vec::new();
        let ghost log = self.log();
        if State::should_rollback() {
            while self.rollback_operations.len() > 0
                invariant
                    self.log().len() + plan.len() == log.len(),
                    forall|i: int| 0 <= i < self.log().len() ==> self.log()[i] == log[i],
                    forall|i: int|
                        0 <= i < plan.len() ==> (#[trigger] plan[i])@ == log[log.len() - 1 - i],
                decreases self.rollback_operations.len(),
            {
                let ghost before = self.log();
                let popped = self.rollback_operations.pop();
                match popped {
                    Some(operation) => {
                        proof {
                            assert(operation@ == before[before.len() - 1]);
                        }
                        plan.push(operation);
                    },
                    None => {},
                }
            }
            proof {
                assert(undo_views(plan@) =~= log.reverse());
            }
        } else {
            proof {
                assert(undo_views(plan@) =~= Seq::<UndoView>::empty());
            }
        }
        plan
    }
}

impl Transaction<Active> {
    /// An open transaction that has recorded nothing.
    pub fn new() -> (trx: Self)
        ensures
            trx.log() == Seq::<UndoView>::empty(),
    {
        let trx = Transaction { rollback_operations: Vec::new(), state: PhantomData };
        proof {
            assert(trx.log() =~= Seq::<UndoView>::empty());
        }
        trx
    }

    /// Records an operation that undoes what was just done.
    pub fn add_operation(&mut self, operation: RollbackOperation)
        ensures
            final(self).log() == old(self).log().push(operation@),
    {
        self.rollback_operations.push(operation);
        proof {
            assert(self.log() =~= old(self).log().push(operation@));
        }
    }

    /// Ends the transaction for good: the log is cleared, and nothing will
    /// be undone.
    pub fn commit(self) -> (trx: Transaction<Committed>)
        ensures
            trx.log() == Seq::<UndoView>::empty(),
            trx.pending() == Seq::<UndoView>::empty(),
    {
        let trx = Transaction { rollback_operations: Vec::new(), state: PhantomData };
        proof {
            assert(trx.log() =~= Seq::<UndoView>::empty());
        }
        trx
    }

    /// Gives the transaction up: the log is kept, and all of it will be
    /// undone.
    pub fn cancel(self) -> (trx: Transaction<Canceled>)
        ensures
            trx.log() == self.log(),
            trx.pending() == self.log().reverse(),
    {
        Transaction { rollback_operations: self.rollback_operations, state: PhantomData }
    }
}

/// Whatever a transaction had recorded, once it is committed nothing is left
/// to undo.
pub proof fn lemma_commit_undoes_nothing(recorded: Seq<UndoView>, committed: Transaction<Committed>)
    ensures
        committed.pending() == Seq::<UndoView>::empty(),
        replayed(Committed::rolls_back(), recorded) == Seq::<UndoView>::empty(),
{
}

/// A transaction that is not committed undoes the latest operation first:
/// the operation recorded at place `i` is undone at place `i` from the end.
pub proof fn lemma_rollback_is_last_in_first_out(log: Seq<UndoView>, i: int)
    requires
        0 <= i < log.len(),
    ensures
        replayed(true, log).len() == log.len(),
        replayed(true, log)[log.len() - 1 - i] == log[i],
{
}

} // verus!
