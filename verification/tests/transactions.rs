use kopye::transactions::Active;
use kopye::transactions::Canceled;
use kopye::transactions::Committed;
use kopye::transactions::RollbackOperation;
use kopye::transactions::Transaction;
use kopye::transactions::TransactionState;

fn remove_file(path: &str) -> RollbackOperation {
    RollbackOperation::RemoveFile(path.to_string())
}

fn remove_dir(path: &str) -> RollbackOperation {
    RollbackOperation::RemoveDir(path.to_string())
}

fn recorded() -> Transaction<Active> {
    let mut trx = Transaction::<Active>::new();
    trx.add_operation(remove_dir("out"));
    trx.add_operation(remove_file("out/a.txt"));
    trx.add_operation(remove_dir("out/deep"));
    trx
}

#[test]
fn commit_clears_the_log() {
    let mut committed = recorded().commit();
    assert_eq!(committed.rollback(), vec![]);
    assert_eq!(committed.rollback(), vec![]);
}

#[test]
fn cancel_keeps_the_log_and_undoes_the_latest_first() {
    let mut canceled = recorded().cancel();
    assert_eq!(
        canceled.rollback(),
        vec![remove_dir("out/deep"), remove_file("out/a.txt"), remove_dir("out")]
    );
    assert_eq!(canceled.rollback(), vec![]);
}

#[test]
fn an_open_transaction_that_is_let_go_of_is_undone() {
    let mut open = recorded();
    assert_eq!(
        open.rollback(),
        vec![remove_dir("out/deep"), remove_file("out/a.txt"), remove_dir("out")]
    );
}

#[test]
fn a_fresh_transaction_has_nothing_to_undo() {
    assert_eq!(Transaction::<Active>::new().rollback(), vec![]);
    assert_eq!(Transaction::<Active>::new().cancel().rollback(), vec![]);
    assert_eq!(Transaction::<Active>::new().commit().rollback(), vec![]);
}

#[test]
fn which_states_roll_back() {
    assert!(Active::should_rollback());
    assert!(Canceled::should_rollback());
    assert!(!Committed::should_rollback());
}
