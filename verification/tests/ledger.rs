use ledger::accounts::Accounts;
use ledger::errors::ApplicationError;
use ledger::tx::Tx;

fn seed(ledger: &mut Accounts, account: &str, balance: u64) {
    ledger
        .deposit(account, balance)
        .expect("seeding a fresh account cannot fail");
}

#[test]
fn test_withdraw_underfunded() {
    //arrange
    let mut ledger = Accounts::new();
    let signer = "test_account";
    seed(&mut ledger, signer, 50);

    //act
    match ledger.withdraw(signer, 100) {
        Ok(_) => panic!("Expected UnderFunded error, but got Ok(_)"),
        Err(e) => match e {
            ApplicationError::UnderFunded(account, amount) => {
                assert_eq!(account, signer);
                assert_eq!(amount, 100);
            }
            _ => panic!("Expected UnderFunded error, but got a different error"),
        },
    }
}

#[test]
fn test_accounts_deposit_overfunded() {
    //arrange
    let mut ledger = Accounts::new();
    let signer = "test_account";
    seed(&mut ledger, signer, 50);

    //act
    match ledger.deposit(signer, u64::MAX) {
        Ok(_) => panic!("Expected OverFunded error, but got Ok(_)"),
        Err(e) => match e {
            ApplicationError::OverFunded(account, amount) => {
                assert_eq!(account, signer);
                assert_eq!(amount, 18446744073709551615);
            }
            _ => panic!("Expected UnderFunded error, but got a different error"),
        },
    }
}

#[test]
fn test_accounts_deposit_works() {
    //arrange
    let mut ledger = Accounts::new();
    let signer = "test_account";
    seed(&mut ledger, signer, 0);

    //act
    match ledger.deposit(signer, 100) {
        Ok(_) => assert_eq!(ledger.balance("test_account").unwrap(), 100),
        Err(e) => panic!("Expected deposit to work but got error{:?}", e),
    }
}

#[test]
fn test_accounts_withdraw_works() {
    //arrange
    let mut ledger = Accounts::new();
    let signer = "test_account";
    seed(&mut ledger, signer, 100);

    //act
    match ledger.withdraw(signer, 100) {
        Ok(_) => assert_eq!(ledger.balance("test_account").unwrap(), 0),
        Err(e) => panic!("Expected deposit to work but got error{:?}", e),
    }
}

#[test]
fn test_accounts_send_works() {
    let mut ledger = Accounts::new();
    let sender = "test_account";
    let receiver = "test_account2";
    seed(&mut ledger, sender, 100);
    seed(&mut ledger, receiver, 0);

    //act
    match ledger.send(sender, receiver, 100) {
        Ok(_) => assert_eq!(ledger.balance("test_account2").unwrap(), 100),
        Err(e) => panic!("Expected deposit to work but got error{:?}", e),
    }
}

#[test]
fn test_accounts_send_underfunded_fails_and_rolls_back() {
    let mut ledger = Accounts::new();
    let sender = "test_account";
    let receiver = "test_account2";
    seed(&mut ledger, sender, 10);
    seed(&mut ledger, receiver, 0);

    //act
    match ledger.send(sender, receiver, 100) {
        Ok(tx) => panic!("Expected send to fail but but succeeded. Tx:{:?}", tx),
        Err(e) => match e {
            ApplicationError::UnderFunded(sender, 100) => {
                assert_eq!(ledger.balance(&sender).unwrap(), 10)
            }
            _ => panic!("Expected UnderFunded error, but got a different error"),
        },
    };
}

#[test]
fn test_accounts_send_overfunded_fails_and_rolls_back() {
    let mut ledger = Accounts::new();
    let sender = "test_account";
    let receiver = "test_account2";
    seed(&mut ledger, sender, u64::MAX);
    seed(&mut ledger, receiver, 10);

    //act
    match ledger.send(sender, receiver, u64::MAX) {
        Ok(tx) => panic!("Expected send to fail but but succeeded. Tx:{:?}", tx),
        Err(e) => match e {
            ApplicationError::OverFunded(sender, 18446744073709551615) => {
                assert_eq!(ledger.balance(&sender).unwrap(), 10)
            }
            _ => panic!("Expected OverFunded error, but got a different error"),
        },
    };
}

#[test]
fn scenario_first_deposit_creates_account() {
    let mut ledger = Accounts::new();
    assert!(ledger.balance("bob").is_none());
    match ledger.deposit("bob", 100) {
        Ok(Tx::Deposit { account, amount }) => {
            assert_eq!(account, "bob");
            assert_eq!(amount, 100);
        }
        other => panic!("Expected Ok(Deposit), got {:?}", other),
    }
    assert_eq!(ledger.balance("bob").unwrap(), 100);
}

#[test]
fn scenario_underfunded_withdraw_reports_attempted_amount() {
    let mut ledger = Accounts::new();
    seed(&mut ledger, "bob", 100);
    match ledger.withdraw("bob", 150) {
        Err(ApplicationError::UnderFunded(account, amount)) => {
            assert_eq!(account, "bob");
            assert_eq!(amount, 150);
        }
        other => panic!("Expected Err(UnderFunded), got {:?}", other),
    }
    assert_eq!(ledger.balance("bob").unwrap(), 100);
}

#[test]
fn scenario_send_moves_full_balance() {
    let mut ledger = Accounts::new();
    seed(&mut ledger, "alice", 50);
    seed(&mut ledger, "bob", 0);
    match ledger.send("alice", "bob", 50) {
        Ok((Tx::Withdraw { account: wa, amount: wx }, Tx::Deposit { account: da, amount: dx })) => {
            assert_eq!(wa, "alice");
            assert_eq!(wx, 50);
            assert_eq!(da, "bob");
            assert_eq!(dx, 50);
        }
        other => panic!("Expected Ok((Withdraw, Deposit)), got {:?}", other),
    }
    assert_eq!(ledger.balance("alice").unwrap(), 0);
    assert_eq!(ledger.balance("bob").unwrap(), 50);
}

#[test]
fn scenario_send_overflow_rolls_back_sender() {
    let mut ledger = Accounts::new();
    seed(&mut ledger, "alice", 50);
    seed(&mut ledger, "bob", u64::MAX);
    match ledger.send("alice", "bob", 50) {
        Err(ApplicationError::OverFunded(account, amount)) => {
            assert_eq!(account, "bob");
            assert_eq!(amount, 50);
        }
        other => panic!("Expected Err(OverFunded), got {:?}", other),
    }
    assert_eq!(ledger.balance("alice").unwrap(), 50);
    assert_eq!(ledger.balance("bob").unwrap(), u64::MAX);
}

#[test]
fn scenario_send_from_unknown_sender() {
    let mut ledger = Accounts::new();
    seed(&mut ledger, "bob", 5);
    match ledger.send("ghost", "bob", 10) {
        Err(ApplicationError::NotFound(account)) => assert_eq!(account, "ghost"),
        other => panic!("Expected Err(NotFound), got {:?}", other),
    }
    assert_eq!(ledger.balance("bob").unwrap(), 5);
    assert!(ledger.balance("ghost").is_none());
}

#[test]
fn withdraw_from_unknown_account_is_not_found() {
    let mut ledger = Accounts::new();
    match ledger.withdraw("nobody", 1) {
        Err(ApplicationError::NotFound(account)) => assert_eq!(account, "nobody"),
        other => panic!("Expected Err(NotFound), got {:?}", other),
    }
    assert!(ledger.balance("nobody").is_none());
}

#[test]
fn send_creates_missing_recipient() {
    let mut ledger = Accounts::new();
    seed(&mut ledger, "alice", 30);
    match ledger.send("alice", "carol", 20) {
        Ok(_) => {}
        Err(e) => panic!("Expected send to work but got error{:?}", e),
    }
    assert_eq!(ledger.balance("alice").unwrap(), 10);
    assert_eq!(ledger.balance("carol").unwrap(), 20);
}

#[test]
fn send_to_self_keeps_balance() {
    let mut ledger = Accounts::new();
    seed(&mut ledger, "alice", 70);
    match ledger.send("alice", "alice", 30) {
        Ok(_) => {}
        Err(e) => panic!("Expected send to work but got error{:?}", e),
    }
    assert_eq!(ledger.balance("alice").unwrap(), 70);
}

#[test]
fn failed_operation_changes_no_balance() {
    let mut ledger = Accounts::new();
    seed(&mut ledger, "alice", 7);
    seed(&mut ledger, "bob", 9);
    assert!(ledger.withdraw("alice", 8).is_err());
    assert!(ledger.deposit("bob", u64::MAX).is_err());
    assert!(ledger.send("alice", "bob", 100).is_err());
    assert!(ledger.send("ghost", "bob", 1).is_err());
    assert_eq!(ledger.balance("alice").unwrap(), 7);
    assert_eq!(ledger.balance("bob").unwrap(), 9);
}

#[test]
fn deposit_of_zero_creates_empty_account() {
    let mut ledger = Accounts::new();
    assert!(ledger.balance("bob").is_none());
    ledger.deposit("bob", 0).expect("deposit of zero works");
    assert_eq!(ledger.balance("bob").unwrap(), 0);
}

#[test]
fn deposit_up_to_the_maximum_works() {
    let mut ledger = Accounts::new();
    seed(&mut ledger, "bob", 1);
    ledger
        .deposit("bob", u64::MAX - 1)
        .expect("filling up to the maximum works");
    assert_eq!(ledger.balance("bob").unwrap(), u64::MAX);
}

#[test]
fn snapshot_lists_every_account_once() {
    let mut ledger = Accounts::new();
    seed(&mut ledger, "alice", 1);
    seed(&mut ledger, "bob", 2);
    let entries = ledger.snapshot();
    assert_eq!(entries.len(), 2);
    let mut saw_alice = false;
    let mut saw_bob = false;
    for (account, balance) in entries.iter() {
        if account == "alice" {
            assert_eq!(*balance, 1);
            saw_alice = true;
        } else if account == "bob" {
            assert_eq!(*balance, 2);
            saw_bob = true;
        } else {
            panic!("unexpected account {:?}", account);
        }
    }
    assert!(saw_alice && saw_bob);
}
