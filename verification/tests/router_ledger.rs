use ledger_core::router::{Payment, PaymentRouter, RouterError, RouterEvent};
use ledger_core::table::{Id, Table};
use ledger_core::word::{Address, Payout, U256};

fn n(x: u64) -> U256 {
    U256::from_u64(x)
}

fn account(tag: u8) -> Address {
    let mut bytes = [0u8; 20];
    bytes[0] = tag;
    Address { bytes }
}

fn owner() -> Address {
    account(0x01)
}

fn router(fee: u64) -> PaymentRouter {
    let mut ledger = PaymentRouter::new();
    ledger.init(owner(), n(fee));
    ledger
}

#[test]
fn new_router_is_empty() {
    let ledger = PaymentRouter::new();
    assert_eq!(ledger.get_payment_count(), n(0));
    assert_eq!(ledger.get_fee_percentage(), n(0));
    assert_eq!(ledger.get_balance(account(2)), n(0));
    assert!(!ledger.is_authorized(account(2)));
    assert_eq!(
        ledger.get_payment([1u8; 32]),
        (Address::zero(), Address::zero(), n(0), n(0), false)
    );
}

#[test]
fn init_sets_owner_and_fee() {
    let mut ledger = router(250);
    assert_eq!(ledger.get_fee_percentage(), n(250));
    assert_eq!(ledger.authorize_agent(owner(), account(2)), Ok(()));
    assert_eq!(ledger.authorize_agent(account(3), account(3)), Err(RouterError::Unauthorized));
}

#[test]
fn deposit_then_overdrawn_withdrawal_is_refused() {
    let mut ledger = router(0);
    assert_eq!(ledger.deposit(account(2), n(100)), Ok(()));
    assert_eq!(ledger.withdraw(account(2), n(150)), Err(RouterError::InsufficientBalance));
    assert_eq!(ledger.get_balance(account(2)), n(100));
}

#[test]
fn deposit_of_zero_is_refused() {
    let mut ledger = router(0);
    assert_eq!(ledger.deposit(account(2), n(0)), Err(RouterError::InvalidAmount));
    assert_eq!(ledger.get_balance(account(2)), n(0));
}

#[test]
fn deposits_add_up_per_account() {
    let mut ledger = router(0);
    ledger.deposit(account(2), n(100)).unwrap();
    ledger.deposit(account(2), n(23)).unwrap();
    ledger.deposit(account(3), n(5)).unwrap();
    assert_eq!(ledger.get_balance(account(2)), n(123));
    assert_eq!(ledger.get_balance(account(3)), n(5));
}

#[test]
fn deposit_carries_between_limbs() {
    let mut ledger = router(0);
    ledger.deposit(account(2), U256 { limbs: [u64::MAX, 0, 0, 0] }).unwrap();
    ledger.deposit(account(2), n(1)).unwrap();
    assert_eq!(ledger.get_balance(account(2)), U256 { limbs: [0, 1, 0, 0] });
}

#[test]
fn deposit_wraps_at_the_word_size() {
    let mut ledger = router(0);
    ledger.deposit(account(2), U256 { limbs: [u64::MAX; 4] }).unwrap();
    ledger.deposit(account(2), n(3)).unwrap();
    assert_eq!(ledger.get_balance(account(2)), n(2));
}

#[test]
fn withdrawal_debits_and_asks_for_the_transfer() {
    let mut ledger = router(0);
    ledger.deposit(account(2), n(100)).unwrap();
    assert_eq!(
        ledger.withdraw(account(2), n(60)),
        Ok(Payout { payee: account(2), amount: n(60) })
    );
    assert_eq!(ledger.get_balance(account(2)), n(40));
    assert_eq!(
        ledger.withdraw(account(2), n(40)),
        Ok(Payout { payee: account(2), amount: n(40) })
    );
    assert_eq!(ledger.get_balance(account(2)), n(0));
}

#[test]
fn withdrawal_borrows_between_limbs() {
    let mut ledger = router(0);
    ledger.deposit(account(2), U256 { limbs: [0, 1, 0, 0] }).unwrap();
    ledger.withdraw(account(2), n(1)).unwrap();
    assert_eq!(ledger.get_balance(account(2)), U256 { limbs: [u64::MAX, 0, 0, 0] });
}

#[test]
fn restoring_a_withdrawal_gives_the_balance_back() {
    let mut ledger = router(0);
    ledger.deposit(account(2), n(100)).unwrap();
    let transfer = ledger.withdraw(account(2), n(60)).unwrap();
    ledger.restore_withdrawal(transfer.payee, transfer.amount);
    assert_eq!(ledger.get_balance(account(2)), n(100));
}

#[test]
fn only_the_owner_authorizes_and_revokes() {
    let mut ledger = router(0);
    assert_eq!(ledger.authorize_agent(account(2), account(2)), Err(RouterError::Unauthorized));
    assert!(!ledger.is_authorized(account(2)));
    assert_eq!(ledger.authorize_agent(owner(), account(2)), Ok(()));
    assert!(ledger.is_authorized(account(2)));
    assert_eq!(ledger.revoke_agent(account(2), account(2)), Err(RouterError::Unauthorized));
    assert!(ledger.is_authorized(account(2)));
    assert_eq!(ledger.revoke_agent(owner(), account(2)), Ok(()));
    assert!(!ledger.is_authorized(account(2)));
}

#[test]
fn authorizing_and_revoking_are_idempotent() {
    let mut ledger = router(0);
    ledger.authorize_agent(owner(), account(2)).unwrap();
    ledger.authorize_agent(owner(), account(2)).unwrap();
    assert!(ledger.is_authorized(account(2)));
    ledger.revoke_agent(owner(), account(2)).unwrap();
    ledger.revoke_agent(owner(), account(2)).unwrap();
    assert!(!ledger.is_authorized(account(2)));
    ledger.revoke_agent(owner(), account(3)).unwrap();
    assert!(!ledger.is_authorized(account(3)));
}

#[test]
fn payment_from_an_unauthorized_caller_is_refused() {
    let mut ledger = router(500);
    ledger.deposit(account(2), n(100)).unwrap();
    assert_eq!(
        ledger.initiate_payment(account(2), account(3), n(100), n(9)),
        Err(RouterError::Unauthorized)
    );
    assert_eq!(ledger.get_payment_count(), n(0));
    assert_eq!(ledger.get_balance(account(2)), n(100));
    let would_be = PaymentRouter::hash_id(n(0));
    assert_eq!(
        ledger.get_payment(would_be),
        (Address::zero(), Address::zero(), n(0), n(0), false)
    );
}

#[test]
fn payment_beyond_the_balance_is_refused() {
    let mut ledger = router(500);
    ledger.authorize_agent(owner(), account(2)).unwrap();
    ledger.deposit(account(2), n(99)).unwrap();
    assert_eq!(
        ledger.initiate_payment(account(2), account(3), n(100), n(9)),
        Err(RouterError::InsufficientBalance)
    );
    assert_eq!(ledger.get_payment_count(), n(0));
    assert_eq!(ledger.get_balance(account(2)), n(99));
}

#[test]
fn initiation_escrows_the_amount() {
    let mut ledger = router(500);
    ledger.authorize_agent(owner(), account(2)).unwrap();
    ledger.deposit(account(2), n(150)).unwrap();
    let id = ledger.initiate_payment(account(2), account(3), n(100), n(77)).unwrap();
    assert_eq!(id, PaymentRouter::hash_id(n(0)));
    assert_eq!(ledger.get_balance(account(2)), n(50));
    assert_eq!(ledger.get_balance(account(3)), n(0));
    assert_eq!(ledger.get_payment_count(), n(1));
    assert_eq!(ledger.get_payment(id), (account(2), account(3), n(100), n(77), false));
    let next = ledger.initiate_payment(account(2), account(3), n(50), n(78)).unwrap();
    assert_eq!(next, PaymentRouter::hash_id(n(1)));
    assert_ne!(id, next);
    assert_eq!(ledger.get_payment_count(), n(2));
}

#[test]
fn completion_credits_the_amount_less_five_percent() {
    let mut ledger = router(500);
    let payer = account(2);
    let payee = account(3);
    ledger.authorize_agent(owner(), payer).unwrap();
    ledger.deposit(payer, n(100)).unwrap();
    let id = ledger.initiate_payment(payer, payee, n(100), n(1)).unwrap();
    assert_eq!(ledger.complete_payment(payee, id), Ok(()));
    assert_eq!(ledger.get_balance(payee), n(95));
    assert_eq!(ledger.get_balance(payer), n(0));
    assert_eq!(ledger.get_balance(owner()), n(0));
    assert_eq!(ledger.get_balance(Address::zero()), n(0));
    assert_eq!(ledger.get_payment(id), (payer, payee, n(100), n(1), true));
}

#[test]
fn fee_is_rounded_down() {
    let mut ledger = router(250);
    let payer = account(2);
    let payee = account(3);
    ledger.authorize_agent(owner(), payer).unwrap();
    ledger.deposit(payer, n(199)).unwrap();
    let id = ledger.initiate_payment(payer, payee, n(199), n(1)).unwrap();
    ledger.complete_payment(payee, id).unwrap();
    assert_eq!(ledger.get_balance(payee), n(195));
}

#[test]
fn fee_of_a_wide_amount() {
    let mut ledger = router(10000);
    let payer = account(2);
    let payee = account(3);
    let wide = U256 { limbs: [7, 0, 3, 0] };
    ledger.authorize_agent(owner(), payer).unwrap();
    ledger.deposit(payer, wide).unwrap();
    let id = ledger.initiate_payment(payer, payee, wide, n(1)).unwrap();
    ledger.complete_payment(payee, id).unwrap();
    assert_eq!(ledger.get_balance(payee), n(0));
}

#[test]
fn second_completion_is_refused_and_credits_nothing() {
    let mut ledger = router(500);
    let payer = account(2);
    let payee = account(3);
    ledger.authorize_agent(owner(), payer).unwrap();
    ledger.deposit(payer, n(100)).unwrap();
    let id = ledger.initiate_payment(payer, payee, n(100), n(1)).unwrap();
    ledger.complete_payment(payee, id).unwrap();
    assert_eq!(ledger.complete_payment(payee, id), Err(RouterError::PaymentAlreadyCompleted));
    assert_eq!(ledger.get_balance(payee), n(95));
}

#[test]
fn completion_of_an_unknown_payment_is_refused() {
    let mut ledger = router(500);
    assert_eq!(
        ledger.complete_payment(account(3), [9u8; 32]),
        Err(RouterError::PaymentNotFound)
    );
}

#[test]
fn payment_of_the_null_payer_counts_as_not_found() {
    let mut ledger = router(500);
    ledger.authorize_agent(owner(), Address::zero()).unwrap();
    let id = ledger.initiate_payment(Address::zero(), account(3), n(0), n(1)).unwrap();
    assert_eq!(ledger.complete_payment(account(3), id), Err(RouterError::PaymentNotFound));
}

#[test]
fn only_the_payee_completes() {
    let mut ledger = router(500);
    let payer = account(2);
    let payee = account(3);
    ledger.authorize_agent(owner(), payer).unwrap();
    ledger.deposit(payer, n(100)).unwrap();
    let id = ledger.initiate_payment(payer, payee, n(100), n(1)).unwrap();
    assert_eq!(ledger.complete_payment(payer, id), Err(RouterError::Unauthorized));
    assert_eq!(ledger.get_balance(payee), n(0));
    assert_eq!(ledger.get_payment(id), (payer, payee, n(100), n(1), false));
}

#[test]
fn payment_to_oneself_returns_the_net_amount() {
    let mut ledger = router(1000);
    let agent = account(2);
    ledger.authorize_agent(owner(), agent).unwrap();
    ledger.deposit(agent, n(300)).unwrap();
    let id = ledger.initiate_payment(agent, agent, n(200), n(1)).unwrap();
    assert_eq!(ledger.get_balance(agent), n(100));
    ledger.complete_payment(agent, id).unwrap();
    assert_eq!(ledger.get_balance(agent), n(280));
}

#[test]
fn recorded_payment_is_read_back() {
    let mut ledger = router(0);
    ledger.authorize_agent(owner(), account(2)).unwrap();
    ledger.deposit(account(2), n(10)).unwrap();
    ledger.record_payment([4u8; 32], account(2), account(3), n(10), n(5)).unwrap();
    assert_eq!(ledger.get_payment([4u8; 32]), (account(2), account(3), n(10), n(5), false));
    assert_eq!(ledger.get_payment([5u8; 32]).0, Address::zero());
}

#[test]
fn table_keeps_the_last_value_written_under_a_key() {
    let mut table: Table<Id, Payment> = Table::new();
    let key = Id { bytes: [1u8; 32] };
    let other = Id { bytes: [2u8; 32] };
    let first = Payment {
        payer: account(1),
        payee: account(2),
        amount: n(1),
        timestamp: n(0),
        completed: false,
    };
    let second = Payment { completed: true, ..first };
    assert_eq!(table.get(&key), None);
    table.insert(key, first);
    table.insert(other, first);
    table.insert(key, second);
    assert_eq!(table.get(&key), Some(second));
    assert_eq!(table.get(&other), Some(first));
}

#[test]
fn word_and_address_basics() {
    assert!(U256::zero().is_zero());
    assert!(!U256 { limbs: [0, 0, 0, 1] }.is_zero());
    assert_eq!(U256::from_u64(5), U256 { limbs: [5, 0, 0, 0] });
    assert!(Address::zero().is_zero());
    assert!(!account(1).is_zero());
    assert!(account(1).same(&account(1)));
    assert!(!account(1).same(&account(2)));
}

#[test]
fn every_accepted_operation_is_announced_in_order() {
    let mut ledger = router(500);
    let payer = account(2);
    let payee = account(3);
    ledger.authorize_agent(owner(), payer).unwrap();
    ledger.deposit(payer, n(150)).unwrap();
    let id = ledger.initiate_payment(payer, payee, n(100), n(1)).unwrap();
    ledger.complete_payment(payee, id).unwrap();
    ledger.withdraw(payee, n(95)).unwrap();
    ledger.revoke_agent(owner(), payer).unwrap();
    assert_eq!(
        ledger.take_events(),
        vec![
            RouterEvent::AgentAuthorized { agent: payer },
            RouterEvent::Deposited { user: payer, amount: n(150) },
            RouterEvent::PaymentInitiated { payment_id: id, payer, payee, amount: n(100) },
            RouterEvent::PaymentCompleted { payment_id: id },
            RouterEvent::Withdrawn { user: payee, amount: n(95) },
            RouterEvent::AgentRevoked { agent: payer },
        ]
    );
    assert_eq!(ledger.take_events(), vec![]);
    assert_eq!(ledger.get_balance(payer), n(50));
    assert_eq!(ledger.get_balance(payee), n(0));
}

#[test]
fn refused_router_operations_announce_nothing() {
    let mut ledger = router(500);
    assert!(ledger.authorize_agent(account(2), account(2)).is_err());
    assert!(ledger.deposit(account(2), n(0)).is_err());
    assert!(ledger.withdraw(account(2), n(1)).is_err());
    assert!(ledger.initiate_payment(account(2), account(3), n(1), n(1)).is_err());
    assert!(ledger.complete_payment(account(3), [1u8; 32]).is_err());
    assert_eq!(ledger.take_events(), vec![]);
}

#[test]
fn restoring_a_withdrawal_takes_its_event_back() {
    let mut ledger = router(0);
    ledger.deposit(account(2), n(100)).unwrap();
    let transfer = ledger.withdraw(account(2), n(60)).unwrap();
    ledger.restore_withdrawal(transfer.payee, transfer.amount);
    assert_eq!(
        ledger.take_events(),
        vec![RouterEvent::Deposited { user: account(2), amount: n(100) }]
    );
}

#[test]
fn second_init_changes_neither_owner_nor_fee_nor_count() {
    let mut ledger = router(500);
    let payer = account(2);
    ledger.authorize_agent(owner(), payer).unwrap();
    ledger.deposit(payer, n(100)).unwrap();
    let id = ledger.initiate_payment(payer, account(3), n(40), n(1)).unwrap();
    ledger.take_events();

    ledger.init(account(7), n(9000));
    assert_eq!(ledger.get_fee_percentage(), n(500));
    assert_eq!(ledger.get_payment_count(), n(1));
    assert_eq!(ledger.authorize_agent(account(7), account(7)), Err(RouterError::Unauthorized));
    assert_eq!(ledger.authorize_agent(owner(), account(4)), Ok(()));
    assert_eq!(ledger.get_payment(id), (payer, account(3), n(40), n(1), false));
    assert_eq!(ledger.get_balance(payer), n(60));

    let next = ledger.initiate_payment(payer, account(3), n(10), n(2)).unwrap();
    assert_eq!(next, PaymentRouter::hash_id(n(1)));
    assert_ne!(next, id);
    ledger.complete_payment(account(3), id).unwrap();
    assert_eq!(ledger.get_balance(account(3)), n(38));
}

#[test]
fn second_init_by_the_owner_changes_nothing_either() {
    let mut ledger = router(500);
    ledger.init(owner(), n(1));
    assert_eq!(ledger.get_fee_percentage(), n(500));
    assert_eq!(ledger.get_payment_count(), n(0));
    assert_eq!(ledger.take_events(), vec![]);
}

#[test]
fn init_after_the_first_payment_changes_nothing() {
    let mut ledger = PaymentRouter::new();
    ledger.authorize_agent(Address::zero(), account(2)).unwrap();
    ledger.deposit(account(2), n(10)).unwrap();
    let id = ledger.initiate_payment(account(2), account(3), n(10), n(1)).unwrap();
    ledger.init(account(7), n(9000));
    assert_eq!(ledger.get_fee_percentage(), n(0));
    assert_eq!(ledger.get_payment_count(), n(1));
    assert_eq!(ledger.authorize_agent(account(7), account(7)), Err(RouterError::Unauthorized));
    assert_eq!(ledger.get_payment(id), (account(2), account(3), n(10), n(1), false));
}
