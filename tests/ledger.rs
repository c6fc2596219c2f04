use task_deposit::record::{decimal_string, is_sufficient_deposit, refund_message};
use task_deposit::{
    unordered_map_pagination, Contract, DepositStatus, LedgerError, Record, MIN_DEPOSIT,
};

const FIRST_TASK: i64 = 1;
const COMPLETE_STATUS: bool = true;
const BALANCE: u128 = 33_000_000_000_000_000_000_000_000;

fn account(name: &str) -> String {
    name.to_string()
}

fn create(ledger: &mut Contract, who: &str, deadline: u64, deposit: u128) -> Result<(), LedgerError> {
    ledger.create_task(&account(who), "default task".to_string(), deadline, deposit, BALANCE)
}

#[test]
fn check_creation_of_task() {
    let mut received_contract = Contract::default();
    create(&mut received_contract, "lrn.testnet", 1658179621, 3000000000000000000000000).unwrap();

    let received = received_contract.get_task_by_id(1, &account("lrn.testnet")).unwrap();
    assert_eq!("default task".to_string(), received.task);
    assert_eq!(3000000000000000000000000, received.guarantee_of_task_completion);
    assert_eq!(false, received.is_complete_status);
    assert_eq!(1658179621, received.deadline_time);
}

#[test]
fn check_min_deposit_for_creation_task() {
    let mut received_contract = Contract::default();
    let r = create(&mut received_contract, "lrn.testnet", 1658179621, 0);
    assert_eq!(r, Err(LedgerError::InsufficientDeposit));
}

#[test]
fn check_getting_of_all_records() {
    let mut received_contract = Contract::default();
    create(&mut received_contract, "lrn.testnet", 1658179621, MIN_DEPOSIT).unwrap();
    create(&mut received_contract, "lrn.testnet", 1658179622, MIN_DEPOSIT).unwrap();

    let vec = received_contract.get_all_user_tasks(&account("lrn.testnet")).unwrap();
    assert_eq!(vec.len(), 2);
}

#[test]
fn check_getting_all_task_without_created_tasks() {
    let received_contract = Contract::default();
    let r = received_contract.get_all_user_tasks(&account("lrn.testnet"));
    assert_eq!(r.unwrap_err(), LedgerError::AccountNotFound);
}

#[test]
fn check_changing_status_of_task() {
    let mut received_contract = Contract::default();
    create(&mut received_contract, "lrn.testnet", 1658179621, 3000000000000000000000000).unwrap();
    received_contract.make_complete_task_status(&account("lrn.testnet"), FIRST_TASK, 0).unwrap();
    let received_status = received_contract
        .get_task_by_id(FIRST_TASK, &account("lrn.testnet"))
        .unwrap()
        .is_complete_status;
    assert_eq!(received_status, COMPLETE_STATUS);
}

#[test]
fn check_panic_when_trying_complete_completed_task() {
    let mut received_contract = Contract::default();
    create(&mut received_contract, "lrn.testnet", 1658179621, MIN_DEPOSIT).unwrap();
    received_contract.make_complete_task_status(&account("lrn.testnet"), FIRST_TASK, 0).unwrap();
    let r = received_contract.make_complete_task_status(&account("lrn.testnet"), FIRST_TASK, 0);
    assert_eq!(r.unwrap_err(), LedgerError::AlreadyCompleted);
}

#[test]
fn identifiers_run_from_one_in_call_order() {
    let mut ledger = Contract::default();
    for deadline in [10u64, 20, 30, 40] {
        create(&mut ledger, "a.testnet", deadline, MIN_DEPOSIT).unwrap();
    }
    create(&mut ledger, "b.testnet", 99, MIN_DEPOSIT).unwrap();
    let all = ledger.get_all_user_tasks(&account("a.testnet")).unwrap();
    let ids: Vec<i64> = all.iter().map(|e| e.0).collect();
    assert_eq!(ids, vec![1, 2, 3, 4]);
    let deadlines: Vec<u64> = all.iter().map(|e| e.1.deadline_time).collect();
    assert_eq!(deadlines, vec![10, 20, 30, 40]);
    assert_eq!(ledger.get_all_user_tasks(&account("b.testnet")).unwrap()[0].0, 1);
    assert_eq!(ledger.count_tasks(&account("a.testnet")), 4);
    assert_eq!(ledger.count_tasks(&account("c.testnet")), 0);
}

#[test]
fn insufficient_deposit_leaves_ledger_unchanged() {
    let mut ledger = Contract::default();
    create(&mut ledger, "a.testnet", 10, MIN_DEPOSIT).unwrap();
    let r = create(&mut ledger, "a.testnet", 20, MIN_DEPOSIT - 1);
    assert_eq!(r, Err(LedgerError::InsufficientDeposit));
    let r = create(&mut ledger, "new.testnet", 20, 1);
    assert_eq!(r, Err(LedgerError::InsufficientDeposit));
    assert_eq!(ledger.count_tasks(&account("a.testnet")), 1);
    assert_eq!(
        ledger.get_task_by_id(1, &account("new.testnet")).unwrap_err(),
        LedgerError::AccountNotFound
    );
}

#[test]
fn deposit_threshold_is_inclusive() {
    assert!(is_sufficient_deposit(MIN_DEPOSIT));
    assert!(is_sufficient_deposit(u128::MAX));
    assert!(!is_sufficient_deposit(MIN_DEPOSIT - 1));
    assert!(!is_sufficient_deposit(0));
}

#[test]
fn fresh_record_is_contributed_and_open() {
    let mut ledger = Contract::default();
    create(&mut ledger, "a.testnet", 10, MIN_DEPOSIT + 5).unwrap();
    let rec = ledger.get_task_by_id(1, &account("a.testnet")).unwrap();
    assert_eq!(rec.deposit_status, DepositStatus::Contributed);
    assert!(!rec.is_complete_status);
    assert_eq!(rec.account_balance, BALANCE);
    assert_eq!(rec.guarantee_of_task_completion, MIN_DEPOSIT + 5);
}

#[test]
fn completion_before_deadline_refunds() {
    let mut ledger = Contract::default();
    create(&mut ledger, "a.testnet", 100, MIN_DEPOSIT).unwrap();
    let c = ledger.make_complete_task_status(&account("a.testnet"), 1, 99).unwrap();
    assert_eq!(c.refund, Some(MIN_DEPOSIT));
    assert_eq!(c.message, "Deposit refunded 3000000000000000000000000");
    let rec = ledger.get_task_by_id(1, &account("a.testnet")).unwrap();
    assert_eq!(rec.deposit_status, DepositStatus::Refunded);
    assert!(rec.is_complete_status);
}

#[test]
fn completion_at_deadline_withholds() {
    let mut ledger = Contract::default();
    create(&mut ledger, "a.testnet", 100, MIN_DEPOSIT).unwrap();
    let c = ledger.make_complete_task_status(&account("a.testnet"), 1, 100).unwrap();
    assert_eq!(c.refund, None);
    assert_eq!(c.message, "Deadline was ended, deposit stayed in service");
    let rec = ledger.get_task_by_id(1, &account("a.testnet")).unwrap();
    assert_eq!(rec.deposit_status, DepositStatus::Withheld);
    assert!(rec.is_complete_status);
}

#[test]
fn completion_after_deadline_withholds() {
    let mut ledger = Contract::default();
    create(&mut ledger, "a.testnet", 100, MIN_DEPOSIT).unwrap();
    let c = ledger.make_complete_task_status(&account("a.testnet"), 1, 101).unwrap();
    assert_eq!(c.refund, None);
    let rec = ledger.get_task_by_id(1, &account("a.testnet")).unwrap();
    assert_eq!(rec.deposit_status, DepositStatus::Withheld);
}

#[test]
fn completion_errors_name_what_is_missing() {
    let mut ledger = Contract::default();
    let r = ledger.make_complete_task_status(&account("a.testnet"), 1, 0);
    assert_eq!(r.unwrap_err(), LedgerError::AccountNotFound);
    create(&mut ledger, "a.testnet", 100, MIN_DEPOSIT).unwrap();
    let r = ledger.make_complete_task_status(&account("a.testnet"), 2, 0);
    assert_eq!(r.unwrap_err(), LedgerError::RecordNotFound);
    let r = ledger.make_complete_task_status(&account("a.testnet"), 0, 0);
    assert_eq!(r.unwrap_err(), LedgerError::RecordNotFound);
    let rec = ledger.get_task_by_id(1, &account("a.testnet")).unwrap();
    assert_eq!(rec.deposit_status, DepositStatus::Contributed);
}

#[test]
fn end_to_end_refund_then_withhold() {
    let d1: u128 = 3_000_000_000_000_000_000_000_000;
    let d2: u128 = 4_000_000_000_000_000_000_000_000;
    let now: u64 = 1_650_000_000;
    let a = account("alice.testnet");
    let mut ledger = Contract::default();
    ledger.create_task(&a, "First task".to_string(), 1693818395, d1, BALANCE).unwrap();
    ledger.create_task(&a, "Second task".to_string(), 1630746395, d2, BALANCE).unwrap();

    let all = ledger.get_all_user_tasks(&a).unwrap();
    assert_eq!(all.len(), 2);
    assert_eq!(all[0].0, 1);
    assert_eq!(all[0].1.task, "First task");
    assert_eq!(all[1].0, 2);
    assert_eq!(all[1].1.task, "Second task");

    let first = ledger.make_complete_task_status(&a, 1, now).unwrap();
    assert_eq!(first.refund, Some(d1));
    assert_eq!(first.message, "Deposit refunded 3000000000000000000000000");
    assert_eq!(ledger.get_task_by_id(1, &a).unwrap().deposit_status, DepositStatus::Refunded);

    let second = ledger.make_complete_task_status(&a, 2, now).unwrap();
    assert_eq!(second.refund, None);
    assert_eq!(ledger.get_task_by_id(2, &a).unwrap().deposit_status, DepositStatus::Withheld);

    assert_eq!(
        ledger.make_complete_task_status(&a, 1, now).unwrap_err(),
        LedgerError::AlreadyCompleted
    );
    assert_eq!(
        ledger.make_complete_task_status(&a, 2, now).unwrap_err(),
        LedgerError::AlreadyCompleted
    );
}

#[test]
fn lookup_errors() {
    let mut ledger = Contract::default();
    assert_eq!(
        ledger.get_task_by_id(1, &account("a.testnet")).unwrap_err(),
        LedgerError::AccountNotFound
    );
    create(&mut ledger, "a.testnet", 100, MIN_DEPOSIT).unwrap();
    assert_eq!(
        ledger.get_task_by_id(2, &account("a.testnet")).unwrap_err(),
        LedgerError::RecordNotFound
    );
    assert_eq!(
        ledger.get_task_by_id(-1, &account("a.testnet")).unwrap_err(),
        LedgerError::RecordNotFound
    );
    assert_eq!(
        ledger.get_task_by_id(1, &account("b.testnet")).unwrap_err(),
        LedgerError::AccountNotFound
    );
}

#[test]
fn refund_balance_is_recorded_only_for_refunds() {
    let mut ledger = Contract::default();
    let a = account("a.testnet");
    create(&mut ledger, "a.testnet", 100, MIN_DEPOSIT).unwrap();
    create(&mut ledger, "a.testnet", 100, MIN_DEPOSIT).unwrap();
    assert!(!ledger.record_refund_balance(&a, 1, 7));
    ledger.make_complete_task_status(&a, 1, 50).unwrap();
    ledger.make_complete_task_status(&a, 2, 150).unwrap();
    assert!(ledger.record_refund_balance(&a, 1, 7));
    assert!(!ledger.record_refund_balance(&a, 2, 7));
    assert!(!ledger.record_refund_balance(&a, 3, 7));
    assert_eq!(ledger.get_task_by_id(1, &a).unwrap().account_balance, 7);
    assert_eq!(ledger.get_task_by_id(2, &a).unwrap().account_balance, BALANCE);
}

#[test]
fn decimal_digits() {
    assert_eq!(decimal_string(0), "0");
    assert_eq!(decimal_string(7), "7");
    assert_eq!(decimal_string(10), "10");
    assert_eq!(decimal_string(1234567890), "1234567890");
    assert_eq!(decimal_string(u128::MAX), u128::MAX.to_string());
    assert_eq!(refund_message(42), "Deposit refunded 42");
}

#[test]
fn pagination_bounds() {
    let v: Vec<(i64, String)> = (1..=5).map(|k| (k, format!("v{}", k))).collect();
    assert_eq!(unordered_map_pagination(&v, None, None), v);
    assert_eq!(unordered_map_pagination(&v, Some(1), Some(2)), v[1..3].to_vec());
    assert_eq!(unordered_map_pagination(&v, Some(3), None), v[3..].to_vec());
    assert_eq!(unordered_map_pagination(&v, None, Some(10)), v);
    assert_eq!(unordered_map_pagination(&v, Some(9), Some(2)), Vec::new());
    assert_eq!(unordered_map_pagination(&v, Some(2), Some(0)), Vec::new());
}

#[test]
fn record_clone_keeps_fields() {
    let r = Record {
        task: "t".to_string(),
        is_complete_status: true,
        guarantee_of_task_completion: 5,
        deadline_time: 6,
        account_balance: 7,
        deposit_status: DepositStatus::Withheld,
    };
    let c = r.clone();
    assert_eq!(c.task, r.task);
    assert_eq!(c.guarantee_of_task_completion, 5);
    assert_eq!(c.deadline_time, 6);
    assert_eq!(c.account_balance, 7);
    assert_eq!(c.deposit_status, DepositStatus::Withheld);
    assert!(c.is_complete_status);
}

#[test]
fn export_and_restore_round_trip() {
    let mut ledger = Contract::default();
    create(&mut ledger, "a.testnet", 100, MIN_DEPOSIT).unwrap();
    create(&mut ledger, "a.testnet", 200, MIN_DEPOSIT + 1).unwrap();
    create(&mut ledger, "b.testnet", 300, MIN_DEPOSIT + 2).unwrap();
    ledger.make_complete_task_status(&account("a.testnet"), 2, 250).unwrap();

    let exported = ledger.export();
    assert_eq!(exported.len(), 2);
    let mut copy = Contract::default();
    for (owner, records) in &exported {
        assert!(copy.restore_account(owner, records));
    }
    let a = copy.get_all_user_tasks(&account("a.testnet")).unwrap();
    assert_eq!(a.len(), 2);
    assert_eq!(a[1].0, 2);
    assert_eq!(a[1].1.deposit_status, DepositStatus::Withheld);
    assert_eq!(a[1].1.guarantee_of_task_completion, MIN_DEPOSIT + 1);
    let b = copy.get_task_by_id(1, &account("b.testnet")).unwrap();
    assert_eq!(b.deadline_time, 300);
    create(&mut copy, "a.testnet", 400, MIN_DEPOSIT).unwrap();
    assert_eq!(copy.get_all_user_tasks(&account("a.testnet")).unwrap()[2].0, 3);
}

#[test]
fn restore_refuses_duplicates_and_inconsistent_records() {
    let mut ledger = Contract::default();
    create(&mut ledger, "a.testnet", 100, MIN_DEPOSIT).unwrap();
    let records = vec![Record {
        task: "t".to_string(),
        is_complete_status: false,
        guarantee_of_task_completion: MIN_DEPOSIT,
        deadline_time: 1,
        account_balance: 0,
        deposit_status: DepositStatus::Contributed,
    }];
    assert!(!ledger.restore_account(&account("a.testnet"), &records));
    let bad = vec![Record {
        task: "t".to_string(),
        is_complete_status: true,
        guarantee_of_task_completion: MIN_DEPOSIT,
        deadline_time: 1,
        account_balance: 0,
        deposit_status: DepositStatus::Contributed,
    }];
    assert!(!ledger.restore_account(&account("b.testnet"), &bad));
    assert_eq!(ledger.count_tasks(&account("b.testnet")), 0);
    assert!(ledger.restore_account(&account("c.testnet"), &records));
    assert_eq!(ledger.count_tasks(&account("c.testnet")), 1);
}
