use engine::amount::Amount;
use engine::client::Client;
use engine::transaction::{TransactionInfo, TxAction};
use engine::wallet::Wallet;

fn amt(units: u64) -> Amount {
    Amount { units }
}

fn event(id: u16, tx: TxAction) -> TransactionInfo {
    TransactionInfo { id, tx }
}

#[test]
fn wallet_deposit_and_withdraw_exact() {
    let mut w = Wallet::default();
    assert!(w.deposit(amt(15000)));
    assert_eq!((w.available, w.held, w.total, w.locked), (15000, 0, 15000, false));
    assert!(w.withdrawal(amt(5000)));
    assert_eq!((w.available, w.held, w.total, w.locked), (10000, 0, 10000, false));
}

#[test]
fn wallet_withdrawal_of_more_than_available_is_dropped() {
    let mut w = Wallet::default();
    assert!(w.deposit(amt(10000)));
    assert!(!w.withdrawal(amt(15000)));
    assert_eq!((w.available, w.held, w.total), (10000, 0, 10000));
}

#[test]
fn wallet_withdrawal_of_everything_reaches_exact_zero() {
    let mut w = Wallet::default();
    assert!(w.deposit(amt(9766)));
    assert!(w.withdrawal(amt(9766)));
    assert_eq!((w.available, w.held, w.total), (0, 0, 0));
}

#[test]
fn wallet_deposit_overflow_is_dropped() {
    let mut w = Wallet::default();
    assert!(w.deposit(amt(u64::MAX)));
    assert!(!w.deposit(amt(1)));
    assert_eq!((w.available, w.held, w.total), (u64::MAX, 0, u64::MAX));
}

#[test]
fn wallet_dispute_resolve_chargeback_arithmetic() {
    let mut w = Wallet::default();
    assert!(w.deposit(amt(40000)));
    assert!(w.dispute(amt(30000)));
    assert_eq!((w.available, w.held, w.total), (10000, 30000, 40000));
    w.resolve(amt(30000));
    assert_eq!((w.available, w.held, w.total), (40000, 0, 40000));
    assert!(w.dispute(amt(40000)));
    w.chargeback(amt(40000));
    assert_eq!((w.available, w.held, w.total, w.locked), (0, 0, 0, true));
}

fn balance_invariant_holds(c: &Client) -> bool {
    let w = c.wallet();
    w.total == w.available + w.held
}

#[test]
fn balance_invariant_holds_after_every_event() {
    let mut c = Client::new();
    let events = [
        event(1, TxAction::Deposit(amt(11111))),
        event(2, TxAction::Deposit(amt(30000))),
        event(1, TxAction::Dispute),
        event(3, TxAction::Withdrawal(amt(5000))),
        event(1, TxAction::Resolve),
        event(1, TxAction::Dispute),
        event(1, TxAction::Chargeback),
        event(4, TxAction::Deposit(amt(7))),
    ];
    assert!(balance_invariant_holds(&c));
    for e in events {
        c.process_transaction(e);
        assert!(balance_invariant_holds(&c));
    }
}

#[test]
fn locked_account_ignores_every_later_event() {
    let mut c = Client::new();
    c.process_transaction(event(1, TxAction::Deposit(amt(10000))));
    c.process_transaction(event(1, TxAction::Dispute));
    c.process_transaction(event(1, TxAction::Chargeback));
    let frozen = c.wallet();
    assert!(frozen.locked);
    c.process_transaction(event(2, TxAction::Deposit(amt(50000))));
    c.process_transaction(event(2, TxAction::Withdrawal(amt(1))));
    c.process_transaction(event(1, TxAction::Dispute));
    c.process_transaction(event(1, TxAction::Resolve));
    let after = c.wallet();
    assert_eq!(
        (after.available, after.held, after.total, after.locked),
        (frozen.available, frozen.held, frozen.total, true)
    );
}

#[test]
fn dispute_of_unknown_or_undeposited_id_changes_nothing() {
    let mut c = Client::new();
    c.process_transaction(event(1, TxAction::Deposit(amt(10000))));
    let before = c.wallet();
    // no entry for id 9
    c.process_transaction(event(9, TxAction::Dispute));
    assert_eq!(c.wallet(), before);
    // id 1 is already disputed: a second dispute is not in deposited state
    c.process_transaction(event(1, TxAction::Dispute));
    let disputed = c.wallet();
    c.process_transaction(event(1, TxAction::Dispute));
    assert_eq!(c.wallet(), disputed);
}

#[test]
fn chargeback_erases_the_id_so_later_references_are_noops() {
    let mut c = Client::new();
    c.process_transaction(event(1, TxAction::Deposit(amt(10000))));
    c.process_transaction(event(2, TxAction::Deposit(amt(20000))));
    c.process_transaction(event(1, TxAction::Dispute));
    c.process_transaction(event(1, TxAction::Chargeback));
    let after = c.wallet();
    // the account is locked and id 1 is gone: nothing moves any more
    c.process_transaction(event(1, TxAction::Resolve));
    assert_eq!(c.wallet(), after);
    c.process_transaction(event(1, TxAction::Chargeback));
    assert_eq!(c.wallet(), after);
}

#[test]
fn deposit_dispute_resolve_round_trip_restores_balances() {
    let mut c = Client::new();
    c.process_transaction(event(1, TxAction::Deposit(amt(12345))));
    c.process_transaction(event(2, TxAction::Deposit(amt(7000))));
    let after_deposit = c.wallet();
    c.process_transaction(event(2, TxAction::Dispute));
    c.process_transaction(event(2, TxAction::Resolve));
    let after_round_trip = c.wallet();
    assert_eq!(
        (after_round_trip.available, after_round_trip.held, after_round_trip.total),
        (after_deposit.available, after_deposit.held, after_deposit.total)
    );
}

#[test]
fn close_event_keeps_the_account_as_it_is() {
    let mut c = Client::new();
    c.process_transaction(event(1, TxAction::Deposit(amt(10000))));
    let before = c.wallet();
    c.close();
    assert_eq!(c.wallet(), before);
    c.process_transaction(TransactionInfo::close());
    assert_eq!(c.wallet(), before);
}

#[test]
fn scenario_deposit_then_too_large_withdrawal() {
    let input = "type, client, tx, amount\n\
                 deposit, 1, 1, 1.0\n\
                 withdrawal, 1, 2, 1.5";
    let out = engine::process_transactions(input.as_bytes()).unwrap();
    assert_eq!(out, "client,available,held,total,locked\n1,1,0,1,false");
}

#[test]
fn scenario_dispute_then_chargeback_locks_account() {
    let input = "type, client, tx, amount\n\
                 deposit, 1, 1, 1.0\n\
                 dispute, 1, 1,\n\
                 chargeback, 1, 1,";
    let out = engine::process_transactions(input.as_bytes()).unwrap();
    assert_eq!(out, "client,available,held,total,locked\n1,0,0,0,true");
}

#[test]
fn scenario_dispute_resolve_then_withdraw_all() {
    let input = "type, client, tx, amount\n\
                 deposit, 1, 1, 1.0\n\
                 dispute, 1, 1,\n\
                 resolve, 1, 1,\n\
                 withdrawal, 1, 2, 1.0";
    let out = engine::process_transactions(input.as_bytes()).unwrap();
    assert_eq!(out, "client,available,held,total,locked\n1,0,0,0,false");
}

#[test]
fn scenario_dispute_without_prior_transaction_still_creates_account() {
    let input = "type, client, tx, amount\ndispute, 2, 99,";
    let out = engine::process_transactions(input.as_bytes()).unwrap();
    assert_eq!(out, "client,available,held,total,locked\n2,0,0,0,false");
}

#[test]
fn scenario_malformed_amount_aborts_without_output() {
    let input = "type, client, tx, amount\n\
                 deposit, 1, 1, 1.0\n\
                 deposit, 2, 2, oops\n\
                 deposit, 3, 3, 2.0";
    match engine::process_transactions(input.as_bytes()) {
        Err(engine::error::EngineError::CsvError(m)) => {
            assert!(m.contains("invalid float literal"));
        },
        other => panic!("expected a CsvError, got {:?}", other),
    }
}

#[test]
fn amount_fields_accept_bare_and_fractional_forms() {
    let input = "type, client, tx, amount\n\
                 deposit, 1, 1, 2\n\
                 deposit, 2, 2, 2.\n\
                 deposit, 3, 3, .5\n\
                 deposit, 4, 4, 0.0001";
    let out = engine::process_transactions(input.as_bytes()).unwrap();
    assert_eq!(
        out,
        "client,available,held,total,locked\n\
         1,2,0,2,false\n\
         2,2,0,2,false\n\
         3,0.5,0,0.5,false\n\
         4,0.0001,0,0.0001,false"
    );
}

#[test]
fn duplicate_deposit_id_overwrites_the_history_entry() {
    // a second deposit under the same id replaces the entry, so a dispute
    // of that id refers to the later amount
    let input = "type, client, tx, amount\n\
                 deposit, 1, 1, 1.0\n\
                 deposit, 1, 1, 3.0\n\
                 dispute, 1, 1,";
    let out = engine::process_transactions(input.as_bytes()).unwrap();
    assert_eq!(out, "client,available,held,total,locked\n1,1,3,4,false");
}

#[test]
fn carriage_returns_and_spaces_are_trimmed_from_fields() {
    let input = "type, client, tx, amount\r\n  deposit ,\t1 , 1 ,  2.5 \r\n";
    let out = engine::process_transactions(input.as_bytes()).unwrap();
    assert_eq!(out, "client,available,held,total,locked\n1,2.5,0,2.5,false");
}

#[test]
fn transaction_id_too_large_for_u16_is_fatal() {
    let input = "type, client, tx, amount\ndeposit, 1, 70000, 2.5";
    match engine::process_transactions(input.as_bytes()) {
        Err(engine::error::EngineError::CsvError(m)) => {
            assert_eq!(
                m,
                "CSV deserialize error: record 1 (line: 2, byte: 25): field 2: invalid digit \
                 found in string"
            );
        },
        other => panic!("expected a CsvError, got {:?}", other),
    }
}

#[test]
fn negative_amounts_are_rejected() {
    let input = "type, client, tx, amount\ndeposit, 1, 1, -2.5";
    match engine::process_transactions(input.as_bytes()) {
        Err(engine::error::EngineError::CsvError(m)) => {
            assert!(m.contains("invalid float literal"));
        },
        other => panic!("expected a CsvError, got {:?}", other),
    }
}

#[test]
fn error_location_counts_lines_and_bytes() {
    // the bad row is the second record, on line 3, starting at byte 44
    let input = "type, client, tx, amount\ndeposit, 1, 1, 2.5\nunparsable";
    match engine::process_transactions(input.as_bytes()) {
        Err(engine::error::EngineError::CsvError(m)) => {
            assert_eq!(
                m,
                "CSV error: record 2 (line: 3, byte: 44): found record with 1 fields, but the \
                 previous record has 4 fields"
            );
        },
        other => panic!("expected a CsvError, got {:?}", other),
    }
}
