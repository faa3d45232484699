use kopye::apply::apply_vfs;
use kopye::apply::conclude;
use kopye::apply::decide;
use kopye::apply::plan_actions;
use kopye::apply::Decision;
use kopye::apply::FsAction;
use kopye::apply::Step;
use kopye::errors::FileOperation;
use kopye::template::TemplateError;
use kopye::transactions::Active;
use kopye::transactions::FinalTransactionState;
use kopye::transactions::RollbackOperation;
use kopye::transactions::Transaction;
use kopye::vfs::VirtualEntry;
use kopye::vfs::VirtualFS;

fn dir(path: &str) -> VirtualEntry {
    VirtualEntry { destination: Some(path.to_string()), content: None, is_file: false }
}

fn file(path: &str, content: &str) -> VirtualEntry {
    VirtualEntry { destination: Some(path.to_string()), content: Some(content.to_string()), is_file: true }
}

fn mkdir(path: &str) -> FsAction {
    FsAction::CreateDir { path: path.to_string() }
}

fn write(path: &str, contents: &str) -> FsAction {
    FsAction::WriteFile { path: path.to_string(), contents: contents.to_string() }
}

fn staged_out() -> VirtualFS {
    VirtualFS { entries: vec![file("out/a.txt", "A"), dir("out/"), file("out/b.txt", "B")] }
}

#[test]
fn directories_are_created_before_files() {
    let plan = plan_actions(&staged_out(), "root");
    assert_eq!(
        plan,
        vec![mkdir("root/out/"), write("root/out/a.txt", "A"), write("root/out/b.txt", "B")]
    );
}

#[test]
fn a_parent_that_is_not_staged_is_created_on_demand() {
    let vfs = VirtualFS { entries: vec![file("sub/x.txt", "X"), file("top.txt", "T")] };
    let plan = plan_actions(&vfs, "root");
    assert_eq!(
        plan,
        vec![mkdir("root/sub"), write("root/sub/x.txt", "X"), mkdir("root"), write("root/top.txt", "T")]
    );
}

#[test]
fn the_staged_root_is_the_parent_of_top_level_files() {
    let vfs = VirtualFS { entries: vec![dir(""), file("top.txt", "T")] };
    let plan = plan_actions(&vfs, "root");
    assert_eq!(plan, vec![mkdir("root/"), write("root/top.txt", "T")]);
}

#[test]
fn dead_entries_and_missing_contents() {
    let vfs = VirtualFS {
        entries: vec![
            VirtualEntry { destination: None, content: Some("lost".to_string()), is_file: true },
            VirtualEntry { destination: None, content: None, is_file: false },
            dir("d"),
            VirtualEntry { destination: Some("d/empty".to_string()), content: None, is_file: true },
        ],
    };
    assert_eq!(plan_actions(&vfs, "root"), vec![mkdir("root/d"), write("root/d/empty", "")]);
    assert_eq!(plan_actions(&VirtualFS::new(), "root"), vec![]);
}

#[test]
fn a_failed_write_undoes_what_was_created_in_reverse() {
    let mut session = apply_vfs(&staged_out(), "root", Transaction::<Active>::new());
    let mut performed: Vec<FsAction> = Vec::new();
    let outcome = loop {
        match session.next() {
            Step::Perform(pending) => {
                if pending.get() == &write("root/out/b.txt", "B") {
                    let denied = std::io::Error::new(std::io::ErrorKind::PermissionDenied, "denied");
                    break Some(pending.failed(denied));
                }
                performed.push(pending.get().clone());
                session = pending.succeeded();
            }
            Step::Finished(_) => break None,
        }
    };
    assert_eq!(performed, vec![mkdir("root/out/"), write("root/out/a.txt", "A")]);
    let (error, mut canceled) = outcome.expect("the write of b.txt fails");
    match error {
        TemplateError::Io(failure) => {
            assert_eq!(failure.operation, FileOperation::Write);
            assert_eq!(failure.path, "root/out/b.txt");
            assert_eq!(failure.source.kind(), std::io::ErrorKind::PermissionDenied);
            assert_eq!(failure.to_string(), "I/O error: writing a file on path 'root/out/b.txt'");
        }
        _ => panic!("a failed write is an I/O error"),
    }
    assert_eq!(
        canceled.rollback(),
        vec![
            RollbackOperation::RemoveFile("root/out/a.txt".to_string()),
            RollbackOperation::RemoveDir("root/out/".to_string()),
        ]
    );
    assert_eq!(canceled.rollback(), vec![]);
}

#[test]
fn a_failed_directory_names_the_directory() {
    let session = apply_vfs(&staged_out(), "root", Transaction::<Active>::new());
    match session.next() {
        Step::Perform(pending) => {
            let failure = std::io::Error::new(std::io::ErrorKind::Other, "no space");
            let (error, mut canceled) = pending.failed(failure);
            match error {
                TemplateError::Io(failure) => {
                    assert_eq!(failure.operation, FileOperation::Mkdir);
                    assert_eq!(failure.path, "root/out/");
                }
                _ => panic!("a failed directory is an I/O error"),
            }
            assert_eq!(canceled.rollback(), vec![]);
        }
        Step::Finished(_) => panic!("there is something to do"),
    }
}

#[test]
fn an_application_that_runs_through_is_committed() {
    let mut session = apply_vfs(&staged_out(), "root", Transaction::<Active>::new());
    let mut count = 0;
    let trx = loop {
        match session.next() {
            Step::Perform(pending) => {
                count += 1;
                session = pending.succeeded();
            }
            Step::Finished(trx) => break trx,
        }
    };
    assert_eq!(count, 3);
    match conclude(trx) {
        FinalTransactionState::Committed(mut committed) => assert_eq!(committed.rollback(), vec![]),
        FinalTransactionState::Canceled(_) => panic!("nothing failed"),
    }
}

#[test]
fn an_application_that_is_let_go_of_half_way_undoes_what_it_did() {
    let session = apply_vfs(&staged_out(), "root", Transaction::<Active>::new());
    let session = match session.next() {
        Step::Perform(pending) => pending.succeeded(),
        Step::Finished(_) => panic!("there is something to do"),
    };
    let session = match session.next() {
        Step::Perform(pending) => pending.succeeded(),
        Step::Finished(_) => panic!("there is something to do"),
    };
    match session.next() {
        Step::Perform(pending) => {
            let (_, mut canceled) = pending.failed(std::io::Error::from(std::io::ErrorKind::NotFound));
            assert_eq!(canceled.rollback().len(), 2);
        }
        Step::Finished(_) => panic!("there is something to do"),
    }
}

#[test]
fn declining_names_no_action_and_leaves_nothing_to_undo() {
    match decide(&staged_out(), "root", false) {
        Decision::Declined(FinalTransactionState::Canceled(mut canceled)) => {
            assert_eq!(canceled.rollback(), vec![]);
        }
        _ => panic!("declined is declined"),
    }
}

#[test]
fn confirming_starts_the_application() {
    match decide(&staged_out(), "root", true) {
        Decision::Apply(session) => match session.next() {
            Step::Perform(pending) => assert_eq!(pending.get(), &mkdir("root/out/")),
            Step::Finished(_) => panic!("there is something to do"),
        },
        Decision::Declined(_) => panic!("confirmed is confirmed"),
    }
    match decide(&VirtualFS::new(), "root", true) {
        Decision::Apply(session) => assert!(matches!(session.next(), Step::Finished(_))),
        Decision::Declined(_) => panic!("confirmed is confirmed"),
    }
}

#[test]
fn what_undoes_an_action() {
    assert_eq!(mkdir("d").undo(), RollbackOperation::RemoveDir("d".to_string()));
    assert_eq!(write("f", "x").undo(), RollbackOperation::RemoveFile("f".to_string()));
    assert_eq!(write("f", "x").path(), "f");
    assert_eq!(mkdir("d").duplicate(), mkdir("d"));
}
