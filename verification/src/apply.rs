//! Applying a staged tree: which directories and files are to be created,
//! in which order, and what is recorded so that a failure half way can be
//! undone.
//!
//! Nothing is created here. A session names one action after the other; the
//! caller performs it and reports whether it succeeded.

use vstd::prelude::*;
use crate::errors::FileOperation;
use crate::errors::IoError;
use crate::paths::components_of;
use crate::paths::joined;
use crate::paths::parent_of;
use crate::paths::path_join;
use crate::paths::path_parent;
use crate::paths::same_components;
use crate::template::TemplateError;
use crate::transactions::replayed;
use crate::transactions::Active;
use crate::transactions::Canceled;
use crate::transactions::FinalTransactionState;
use crate::transactions::RollbackOperation;
use crate::transactions::Transaction;
use crate::transactions::UndoView;
use crate::vfs::EntryView;
use crate::vfs::VirtualFS;

verus! {

/// Something to be created on disk.
#[derive(Debug, Clone, PartialEq, Eq)]
pub enum FsAction {
    /// Create the directory and every missing directory above it.
    CreateDir { path: String },
    /// Write the file.
    WriteFile { path: String, contents: String },
}

pub enum ActionView {
    CreateDir(Seq<char>),
    WriteFile(Seq<char>, Seq<char>),
}

impl View for FsAction {
    type V = ActionView;

    open spec fn view(&self) -> ActionView {
        match self {
            FsAction::CreateDir { path } => ActionView::CreateDir(path@),
            FsAction::WriteFile { path, contents } => ActionView::WriteFile(path@, contents@),
        }
    }
}

/// The views of a list of actions.
pub open spec fn action_views(actions: Seq<FsAction>) -> Seq<ActionView> {
    Seq::new(actions.len(), |i: int| actions[i]@)
}

/// What undoes an action: a created directory is removed with all that is
/// in it, a written file is deleted.
pub open spec fn undo_of(action: ActionView) -> UndoView {
    match action {
        ActionView::CreateDir(path) => UndoView::RemoveDir(path),
        ActionView::WriteFile(path, _) => UndoView::RemoveFile(path),
    }
}

/// Where an action creates something.
pub open spec fn path_of(action: ActionView) -> Seq<char> {
    match action {
        ActionView::CreateDir(path) => path,
        ActionView::WriteFile(path, _) => path,
    }
}

/// What undoes each action of a list, in the order of the actions.
pub open spec fn undo_log(actions: Seq<ActionView>) -> Seq<UndoView> {
    Seq::new(actions.len(), |i: int| undo_of(actions[i]))
}

/// Some staged directory, placed below `root`, is the directory `path`.
pub open spec fn is_staged_directory(entries: Seq<EntryView>, root: Seq<char>, path: Seq<char>) -> bool {
    exists|i: int|
        0 <= i < entries.len() && !(#[trigger] entries[i]).is_file && entries[i].destination is Some
            && components_of(joined(root, entries[i].destination->0)) == components_of(path)
}

/// The creation of every staged directory, in the order they were staged.
/// Entries without a destination are passed over.
pub open spec fn directory_actions(entries: Seq<EntryView>, root: Seq<char>) -> Seq<ActionView>
    decreases entries.len(),
{
    if entries.len() == 0 {
        Seq::empty()
    } else {
        let earlier = directory_actions(entries.drop_last(), root);
        let entry = entries.last();
        match entry.destination {
            Some(destination) if !entry.is_file => earlier.push(
                ActionView::CreateDir(joined(root, destination)),
            ),
            _ => earlier,
        }
    }
}

/// What one staged file asks for: its parent directory, unless that is
/// staged as a directory, and then the file itself.
pub open spec fn file_steps(all: Seq<EntryView>, root: Seq<char>, entry: EntryView) -> Seq<ActionView> {
    match entry.destination {
        Some(destination) if entry.is_file => {
            let path = joined(root, destination);
            let content = match entry.content {
                Some(content) => content,
                None => Seq::empty(),
            };
            match parent_of(path) {
                Some(parent) if !is_staged_directory(all, root, parent) => seq![
                    ActionView::CreateDir(parent),
                    ActionView::WriteFile(path, content),
                ],
                _ => seq![ActionView::WriteFile(path, content)],
            }
        },
        _ => Seq::empty(),
    }
}

/// What the staged files among `entries` ask for, in the order they were
/// staged; `all` is the whole staged tree.
pub open spec fn file_actions(all: Seq<EntryView>, entries: Seq<EntryView>, root: Seq<char>) -> Seq<
    ActionView,
>
    decreases entries.len(),
{
    if entries.len() == 0 {
        Seq::empty()
    } else {
        file_actions(all, entries.drop_last(), root) + file_steps(all, root, entries.last())
    }
}

/// Everything that applying the staged tree below `root` does: first every
/// directory, then every file.
pub open spec fn apply_actions(entries: Seq<EntryView>, root: Seq<char>) -> Seq<ActionView> {
    directory_actions(entries, root) + file_actions(entries, entries, root)
}

impl FsAction {
    /// Where the action creates something.
    pub fn path(&self) -> (path: &String)
        ensures
            path@ == path_of(self@),
    {
        match self {
            FsAction::CreateDir { path } => path,
            FsAction::WriteFile { path, contents: _ } => path,
        }
    }

    /// A copy of the action.
    pub fn duplicate(&self) -> (copy: FsAction)
        ensures
            copy@ == self@,
    {
        match self {
            FsAction::CreateDir { path } => FsAction::CreateDir { path: path.clone() },
            FsAction::WriteFile { path, contents } => FsAction::WriteFile {
                path: path.clone(),
                contents: contents.clone(),
            },
        }
    }

    /// What is recorded once the action has succeeded.
    pub fn undo(&self) -> (operation: RollbackOperation)
        ensures
            operation@ == undo_of(self@),
    {
        match self {
            FsAction::CreateDir { path } => RollbackOperation::RemoveDir(path.clone()),
            FsAction::WriteFile { path, contents: _ } => RollbackOperation::RemoveFile(path.clone()),
        }
    }

    /// The error that is reported when the action has failed: creating a
    /// directory failed at the action's path, or writing a file did.
    pub fn failure(&self, error: std::io::Error) -> (failure: IoError)
        ensures
            failure.path@ == path_of(self@),
            failure.source == error,
            failure.operation == match self@ {
                ActionView::CreateDir(_) => FileOperation::Mkdir,
                ActionView::WriteFile(_, _) => FileOperation::Write,
            },
    {
        match self {
            FsAction::CreateDir { path } => IoError::new(FileOperation::Mkdir, path.clone(), error),
            FsAction::WriteFile { path, contents: _ } => IoError::new(
                FileOperation::Write,
                path.clone(),
                error,
            ),
        }
    }
}

/// Whether the directory `path` is staged.
fn staged_directory(vfs: &VirtualFS, root: &str, path: &str) -> (r: bool)
    ensures
        r == is_staged_directory(vfs@, root@, path@),
{
    let mut i: usize = 0;
    while i < vfs.entries.len()
        invariant
            i <= vfs.entries.len(),
            forall|j: int|
                0 <= j < i ==> !(!(#[trigger] vfs@[j]).is_file && vfs@[j].destination is Some
                    && components_of(joined(root@, vfs@[j].destination->0)) == components_of(path@)),
        decreases vfs.entries.len() - i,
    {
        let entry = &vfs.entries[i];
        proof {
            assert(vfs@[i as int] == entry@);
        }
        if !entry.is_file {
            match &entry.destination {
                Some(destination) => {
                    let placed = path_join(root, destination.as_str());
                    if same_components(placed.as_str(), path) {
                        return true;
                    }
                },
                None => {},
            }
        }
        i += 1;
    }
    false
}

/// Lists what applying the staged tree below `root` does, in order.
pub fn plan_actions(vfs: &VirtualFS, root: &str) -> (plan: Vec<FsAction>)
    ensures
        action_views(plan@) == apply_actions(vfs@, root@),
{
    let mut plan: Vec<FsAction> = Vec::new();
    let ghost entries = vfs@;
    let mut i: usize = 0;
    proof {
        assert(action_views(plan@) =~= directory_actions(entries.take(0), root@));
    }
    while i < vfs.entries.len()
        invariant
            i <= vfs.entries.len(),
            entries == vfs@,
            action_views(plan@) == directory_actions(entries.take(i as int), root@),
        decreases vfs.entries.len() - i,
    {
        let entry = &vfs.entries[i];
        let ghost before = action_views(plan@);
        proof {
            let next = entries.take(i + 1);
            assert(next.drop_last() =~= entries.take(i as int));
            assert(next.last() == entry@);
        }
        if !entry.is_file {
            match &entry.destination {
                Some(destination) => {
                    let path = path_join(root, destination.as_str());
                    plan.push(FsAction::CreateDir { path });
                    proof {
                        assert(action_views(plan@) =~= before.push(
                            ActionView::CreateDir(joined(root@, destination@)),
                        ));
                    }
                },
                None => {},
            }
        }
        i += 1;
    }
    let ghost directories = action_views(plan@);
    let mut k: usize = 0;
    proof {
        assert(entries.take(entries.len() as int) =~= entries);
        assert(action_views(plan@) =~= directories + file_actions(entries, entries.take(0), root@));
    }
    while k < vfs.entries.len()
        invariant
            k <= vfs.entries.len(),
            entries == vfs@,
            directories == directory_actions(entries, root@),
            action_views(plan@) == directories + file_actions(entries, entries.take(k as int), root@),
        decreases vfs.entries.len() - k,
    {
        let entry = &vfs.entries[k];
        let ghost before = action_views(plan@);
        proof {
            let next = entries.take(k + 1);
            assert(next.drop_last() =~= entries.take(k as int));
            assert(next.last() == entry@);
        }
        if entry.is_file {
            match &entry.destination {
                Some(destination) => {
                    let path = path_join(root, destination.as_str());
                    let contents = match &entry.content {
                        Some(content) => content.clone(),
                        None => String::new(),
                    };
                    let ghost content = contents@;
                    let ghost at = path@;
                    match path_parent(path.as_str()) {
                        Some(parent) => {
                            if !staged_directory(vfs, root, parent.as_str()) {
                                let ghost above = parent@;
                                plan.push(FsAction::CreateDir { path: parent });
                                plan.push(FsAction::WriteFile { path, contents });
                                proof {
                                    assert(action_views(plan@) =~= before + seq![
                                        ActionView::CreateDir(above),
                                        ActionView::WriteFile(at, content),
                                    ]);
                                }
                            } else {
                                plan.push(FsAction::WriteFile { path, contents });
                                proof {
                                    assert(action_views(plan@) =~= before + seq![
                                        ActionView::WriteFile(at, content),
                                    ]);
                                }
                            }
                        },
                        None => {
                            plan.push(FsAction::WriteFile { path, contents });
                            proof {
                                assert(action_views(plan@) =~= before + seq![
                                    ActionView::WriteFile(at, content),
                                ]);
                            }
                        },
                    }
                },
                None => {
                    proof {
                        assert(before + Seq::<ActionView>::empty() =~= before);
                    }
                },
            }
        } else {
            proof {
                assert(before + Seq::<ActionView>::empty() =~= before);
            }
        }
        proof {
            assert(action_views(plan@) == before + file_steps(entries, root@, entry@));
            assert(action_views(plan@) =~= directories + file_actions(
                entries,
                entries.take(k + 1),
                root@,
            ));
        }
        k += 1;
    }
    plan
}

/// An application under way: the actions, how many of them are done, and
/// the transaction that knows how to undo those.
#[derive(Debug)]
pub struct ApplySession {
    plan: Vec<FsAction>,
    done: usize,
    trx: Transaction<Active>,
}

/// An action that was named and whose outcome is awaited.
#[derive(Debug)]
pub struct PendingAction {
    action: FsAction,
    session: ApplySession,
}

/// What comes next in an application.
#[derive(Debug)]
pub enum Step {
    /// An action to perform.
    Perform(PendingAction),
    /// Nothing is left to do.
    Finished(Transaction<Active>),
}

impl ApplySession {
    /// All actions of the application.
    pub closed spec fn plan(&self) -> Seq<ActionView> {
        action_views(self.plan@)
    }

    /// How many actions are done.
    pub closed spec fn done(&self) -> int {
        self.done as int
    }

    /// What the transaction has recorded.
    pub closed spec fn log(&self) -> Seq<UndoView> {
        self.trx.log()
    }

    /// Names the next action, or hands the transaction back when every
    /// action is done.
    pub fn next(self) -> (step: Step)
        ensures
            match step {
                Step::Perform(pending) => {
                    &&& 0 <= self.done() < self.plan().len()
                    &&& pending.action() == self.plan()[self.done()]
                    &&& pending.session() == self
                },
                Step::Finished(trx) => self.done() >= self.plan().len() && trx.log() == self.log(),
            },
    {
        if self.done < self.plan.len() {
            let action = self.plan[self.done].duplicate();
            Step::Perform(PendingAction { action, session: self })
        } else {
            Step::Finished(self.trx)
        }
    }
}

impl ApplySession {
    /// Gives the application up before its end: the transaction is
    /// canceled, and still knows everything that was recorded.
    pub fn abandon(self) -> (trx: Transaction<Canceled>)
        ensures
            trx.log() == self.log(),
            trx.pending() == self.log().reverse(),
    {
        self.trx.cancel()
    }
}

impl PendingAction {
    /// Gives the application up while the action's outcome is awaited: the
    /// transaction is canceled, and still knows everything that was
    /// recorded before the action.
    pub fn abandon(self) -> (trx: Transaction<Canceled>)
        ensures
            trx.log() == self.session().log(),
            trx.pending() == self.session().log().reverse(),
    {
        self.session.abandon()
    }

    /// The action whose outcome is awaited.
    pub closed spec fn action(&self) -> ActionView {
        self.action@
    }

    /// The application that the action belongs to.
    pub closed spec fn session(&self) -> ApplySession {
        self.session
    }

    /// The action to perform.
    pub fn get(&self) -> (action: &FsAction)
        ensures
            action@ == self.action(),
    {
        &self.action
    }

    /// The action has succeeded: what undoes it is recorded, and the
    /// application moves on.
    pub fn succeeded(self) -> (session: ApplySession)
        ensures
            session.plan() == self.session().plan(),
            session.done() == self.session().done() + 1 || session.done() == self.session().done(),
            self.session().done() < usize::MAX ==> session.done() == self.session().done() + 1,
            session.log() == self.session().log().push(undo_of(self.action())),
    {
        let PendingAction { action, session } = self;
        let ApplySession { plan, done, trx } = session;
        let mut trx = trx;
        trx.add_operation(action.undo());
        let done = if done < usize::MAX {
            done + 1
        } else {
            done
        };
        ApplySession { plan, done, trx }
    }

    /// The action has failed: the application ends, the error names the
    /// action's path and what was being done, and the canceled transaction
    /// still knows everything that was recorded.
    pub fn failed(self, error: std::io::Error) -> (r: (TemplateError, Transaction<Canceled>))
        ensures
            r.1.log() == self.session().log(),
            r.1.pending() == self.session().log().reverse(),
            match r.0 {
                TemplateError::Io(failure) => {
                    &&& failure.source == error
                    &&& match self.action() {
                        ActionView::CreateDir(path) => failure.path@ == path && failure.operation
                            == FileOperation::Mkdir,
                        ActionView::WriteFile(path, _) => failure.path@ == path && failure.operation
                            == FileOperation::Write,
                    }
                },
                _ => false,
            },
    {
        let PendingAction { action, session } = self;
        let failure = action.failure(error);
        (TemplateError::Io(failure), session.trx.cancel())
    }
}

/// Starts applying the staged tree below `destination_root` under the
/// transaction: nothing is done yet.
pub fn apply_vfs(vfs: &VirtualFS, destination_root: &str, trx: Transaction<Active>) -> (session:
    ApplySession)
    ensures
        session.plan() == apply_actions(vfs@, destination_root@),
        session.done() == 0,
        session.log() == trx.log(),
{
    ApplySession { plan: plan_actions(vfs, destination_root), done: 0, trx }
}

/// What the answer to the final confirmation leads to.
#[derive(Debug)]
pub enum Decision {
    /// The tree is applied.
    Apply(ApplySession),
    /// Nothing is changed.
    Declined(FinalTransactionState),
}

/// Acts on the final confirmation. Confirmed, the staged tree is applied
/// under a fresh transaction. Declined, the fresh transaction is canceled
/// at once: no action is ever named, and nothing is left to undo.
pub fn decide(vfs: &VirtualFS, destination_root: &str, confirmed: bool) -> (decision: Decision)
    ensures
        match decision {
            Decision::Apply(session) => {
                &&& confirmed
                &&& session.plan() == apply_actions(vfs@, destination_root@)
                &&& session.done() == 0
                &&& session.log().len() == 0
            },
            Decision::Declined(FinalTransactionState::Canceled(trx)) => {
                &&& !confirmed
                &&& trx.log().len() == 0
                &&& trx.pending().len() == 0
            },
            Decision::Declined(_) => false,
        },
{
    let trx = Transaction::<Active>::new();
    if confirmed {
        Decision::Apply(apply_vfs(vfs, destination_root, trx))
    } else {
        Decision::Declined(FinalTransactionState::Canceled(trx.cancel()))
    }
}

/// Ends an application that has nothing left to do: the transaction is
/// committed.
pub fn conclude(trx: Transaction<Active>) -> (outcome: FinalTransactionState)
    ensures
        outcome matches FinalTransactionState::Committed(done) && done.pending().len() == 0,
{
    FinalTransactionState::Committed(trx.commit())
}

/// When the first `done` actions of a plan have succeeded under a fresh
/// transaction and the next one fails, what was created is undone from the
/// latest to the earliest: the action done at place `i` is undone at place
/// `done - 1 - i`.
pub proof fn lemma_failure_undoes_in_reverse(plan: Seq<ActionView>, done: int, i: int)
    requires
        0 <= i < done <= plan.len(),
    ensures
        replayed(true, undo_log(plan.take(done))).len() == done,
        replayed(true, undo_log(plan.take(done)))[done - 1 - i] == undo_of(plan[i]),
{
}

/// The directories of a staged tree are all created before any of its
/// files is written: applying starts with the directory actions, none of
/// which writes a file.
pub proof fn lemma_directories_come_first(entries: Seq<EntryView>, root: Seq<char>)
    ensures
        directory_actions(entries, root).is_prefix_of(apply_actions(entries, root)),
        forall|i: int|
            0 <= i < directory_actions(entries, root).len() ==> #[trigger] directory_actions(
                entries,
                root,
            )[i] is CreateDir,
    decreases entries.len(),
{
    if entries.len() > 0 {
        lemma_directories_come_first(entries.drop_last(), root);
    }
}

} // verus!
