use anima::{AnimaData, Error, MintResult, PaymentStatus, State, PAYMENT_AMOUNT};
use candid::Principal;

fn alice() -> Principal {
    Principal::from_slice(&[1, 2, 3])
}

fn bob() -> Principal {
    Principal::from_slice(&[1, 2, 4])
}

#[test]
fn empty_ledger_has_nothing() {
    let state = State::default();
    assert_eq!(state.next_token_id(), 0);
    assert_eq!(state.get_anima(0), None);
    assert!(state.get_user_animas(alice()).is_empty());
    assert_eq!(state.check_claim(&alice(), 0), Err(Error::PaymentNotFound));
}

#[test]
fn register_then_mint_returns_first_identifier() {
    let mut state = State::default();
    assert_eq!(state.register_payment(alice(), 42, 1_000), Ok(()));
    let minted = state.mint_anima(alice(), 42, 2_000);
    assert_eq!(
        minted,
        Ok(MintResult { token_id: 0, designation: "ANIMA-00000000".to_string() })
    );
    assert_eq!(state.mint_anima(alice(), 42, 3_000), Err(Error::PaymentAlreadyConsumed));
    assert_eq!(state.next_token_id(), 1);
}

#[test]
fn second_mint_on_a_memo_is_refused_and_changes_nothing() {
    let mut state = State::default();
    state.register_payment(alice(), 7, 10).unwrap();
    state.mint_anima(alice(), 7, 20).unwrap();
    let before = state.get_anima(0);
    for now in 21..25 {
        assert_eq!(state.mint_anima(alice(), 7, now), Err(Error::PaymentAlreadyConsumed));
    }
    assert_eq!(state.get_anima(0), before);
    assert_eq!(state.get_anima(1), None);
    assert_eq!(state.next_token_id(), 1);
}

#[test]
fn mint_by_another_caller_is_a_payer_mismatch() {
    let mut state = State::default();
    state.register_payment(alice(), 42, 1).unwrap();
    assert_eq!(state.mint_anima(bob(), 42, 2), Err(Error::PayerMismatch));
    assert_eq!(state.mint_anima(Principal::anonymous(), 42, 2), Err(Error::PayerMismatch));
    assert_eq!(state.mint_anima(Principal::management_canister(), 42, 2), Err(Error::PayerMismatch));
    assert_eq!(state.next_token_id(), 0);
    assert_eq!(state.get_anima(0), None);
    // the payment is still there for its payer
    assert_eq!(state.mint_anima(alice(), 42, 3).map(|m| m.token_id), Ok(0));
}

#[test]
fn payer_is_compared_by_value() {
    let mut state = State::default();
    state.register_payment(Principal::from_slice(&[9; 29]), 1, 1).unwrap();
    // an equal principal built separately is the payer
    assert!(state.check_claim(&Principal::from_slice(&[9; 29]), 1).is_ok());
    // a prefix of it is not
    assert_eq!(
        state.check_claim(&Principal::from_slice(&[9; 28]), 1),
        Err(Error::PayerMismatch)
    );
    // the empty principal and a single zero byte differ
    state.register_payment(Principal::from_slice(&[]), 2, 1).unwrap();
    assert_eq!(
        state.check_claim(&Principal::from_slice(&[0]), 2),
        Err(Error::PayerMismatch)
    );
    assert!(state.check_claim(&Principal::management_canister(), 2).is_ok());
}

#[test]
fn mint_on_unregistered_memo_is_not_found() {
    let mut state = State::default();
    assert_eq!(state.mint_anima(alice(), 42, 1), Err(Error::PaymentNotFound));
    state.register_payment(alice(), 41, 1).unwrap();
    assert_eq!(state.mint_anima(alice(), 42, 2), Err(Error::PaymentNotFound));
    assert_eq!(state.mint_anima(alice(), u64::MAX, 2), Err(Error::PaymentNotFound));
    assert_eq!(state.next_token_id(), 0);
}

#[test]
fn mismatch_is_reported_before_consumption() {
    let mut state = State::default();
    state.register_payment(alice(), 5, 1).unwrap();
    state.mint_anima(alice(), 5, 2).unwrap();
    assert_eq!(state.mint_anima(bob(), 5, 3), Err(Error::PayerMismatch));
    assert_eq!(state.mint_anima(alice(), 5, 3), Err(Error::PaymentAlreadyConsumed));
}

#[test]
fn identifiers_rise_by_one_whatever_the_memos() {
    let mut state = State::default();
    let memos = [900u64, 3, u64::MAX, 0, 17];
    for (i, memo) in memos.iter().enumerate() {
        let payer = if i % 2 == 0 { alice() } else { bob() };
        state.register_payment(payer, *memo, i as u64).unwrap();
        // failed requests in between hand out nothing
        assert!(state.mint_anima(Principal::anonymous(), *memo, 0).is_err());
        assert!(state.interact(1_000, None).is_err());
        let minted = state.mint_anima(payer, *memo, 100 + i as u64).unwrap();
        assert_eq!(minted.token_id, i as u64);
        assert_eq!(state.next_token_id(), i as u64 + 1);
    }
    for id in 0..memos.len() as u64 {
        let anima = state.get_anima(id).unwrap();
        assert_eq!(anima.payment_memo, memos[id as usize]);
        assert_eq!(anima.designation, format!("ANIMA-{:08X}", id));
    }
    assert_eq!(state.get_anima(memos.len() as u64), None);
}

#[test]
fn round_trip_gives_the_minted_record() {
    let mut state = State::default();
    state.register_payment(bob(), 77, 5).unwrap();
    let minted = state.mint_anima(bob(), 77, 6).unwrap();
    let anima = state.get_anima(minted.token_id).unwrap();
    assert_eq!(
        anima,
        AnimaData {
            owner: bob(),
            designation: "ANIMA-00000000".to_string(),
            created_at: 6,
            level: 1,
            experience: 0,
            payment_memo: 77,
        }
    );
    assert_eq!(anima.designation, minted.designation);
}

#[test]
fn get_anima_on_unminted_identifier_is_none() {
    let mut state = State::default();
    assert_eq!(state.get_anima(0), None);
    assert_eq!(state.get_anima(u64::MAX), None);
    state.register_payment(alice(), 1, 1).unwrap();
    assert_eq!(state.get_anima(0), None);
    state.mint_anima(alice(), 1, 1).unwrap();
    assert!(state.get_anima(0).is_some());
    assert_eq!(state.get_anima(1), None);
}

#[test]
fn check_claim_returns_the_pending_record() {
    let mut state = State::default();
    state.register_payment(alice(), 42, 1234).unwrap();
    let record = state.check_claim(&alice(), 42).unwrap();
    assert_eq!(record.principal, alice());
    assert_eq!(record.memo, 42);
    assert_eq!(record.timestamp, 1234);
    assert_eq!(record.amount, PAYMENT_AMOUNT);
    assert_eq!(record.amount, 100_000_000);
    assert_eq!(record.status, PaymentStatus::Pending);
    // looking up changes nothing
    assert_eq!(state.check_claim(&alice(), 42), Ok(record));
    assert_eq!(state.check_claim(&bob(), 42), Err(Error::PayerMismatch));
    assert_eq!(state.check_claim(&alice(), 43), Err(Error::PaymentNotFound));
    state.mint_anima(alice(), 42, 1).unwrap();
    assert_eq!(state.check_claim(&alice(), 42), Err(Error::PaymentAlreadyConsumed));
}

#[test]
fn registering_again_replaces_a_pending_record() {
    let mut state = State::default();
    state.register_payment(alice(), 42, 1).unwrap();
    assert_eq!(state.register_payment(bob(), 42, 2), Ok(()));
    let record = state.check_claim(&bob(), 42).unwrap();
    assert_eq!(record.principal, bob());
    assert_eq!(record.timestamp, 2);
    assert_eq!(state.mint_anima(alice(), 42, 3), Err(Error::PayerMismatch));
    assert_eq!(state.mint_anima(bob(), 42, 3).map(|m| m.token_id), Ok(0));
}

#[test]
fn registering_again_replaces_a_consumed_record() {
    let mut state = State::default();
    state.register_payment(alice(), 42, 1).unwrap();
    state.mint_anima(alice(), 42, 2).unwrap();
    assert_eq!(state.register_payment(alice(), 42, 3), Ok(()));
    // the first ANIMA is untouched and the memo can pay once more
    let first = state.get_anima(0).unwrap();
    assert_eq!(first.payment_memo, 42);
    let again = state.mint_anima(alice(), 42, 4).unwrap();
    assert_eq!(again.token_id, 1);
    assert_eq!(again.designation, "ANIMA-00000001");
    assert_eq!(state.get_anima(0), Some(first));
    assert_eq!(state.mint_anima(alice(), 42, 5), Err(Error::PaymentAlreadyConsumed));
}

#[test]
fn holdings_are_filtered_by_owner_in_rising_order() {
    let mut state = State::default();
    let payers = [alice(), bob(), alice(), alice(), bob()];
    for (i, payer) in payers.iter().enumerate() {
        state.register_payment(*payer, 100 - i as u64, 0).unwrap();
        state.mint_anima(*payer, 100 - i as u64, i as u64).unwrap();
    }
    let of_alice = state.get_user_animas(alice());
    assert_eq!(of_alice.iter().map(|e| e.0).collect::<Vec<u64>>(), vec![0, 2, 3]);
    for (id, anima) in &of_alice {
        assert_eq!(anima.owner, alice());
        assert_eq!(Some(anima.clone()), state.get_anima(*id));
    }
    let of_bob = state.get_user_animas(bob());
    assert_eq!(of_bob.iter().map(|e| e.0).collect::<Vec<u64>>(), vec![1, 4]);
    assert_eq!(of_bob[1].1.payment_memo, 96);
    assert!(state.get_user_animas(Principal::anonymous()).is_empty());
}

#[test]
fn holdings_show_progress() {
    let mut state = State::default();
    state.register_payment(alice(), 1, 0).unwrap();
    state.mint_anima(alice(), 1, 0).unwrap();
    state.interact(0, None).unwrap();
    let holdings = state.get_user_animas(alice());
    assert_eq!(holdings.len(), 1);
    assert_eq!(holdings[0].0, 0);
    assert_eq!(holdings[0].1.experience, 10);
}

#[test]
fn requests_fit_a_young_ledger() {
    let mut state = State::default();
    assert!(state.mint_fits(&alice(), 1));
    assert!(state.interaction_fits(0));
    state.register_payment(alice(), 1, 0).unwrap();
    assert!(state.mint_fits(&alice(), 1));
    assert!(state.mint_fits(&bob(), 1));
    state.mint_anima(alice(), 1, 0).unwrap();
    assert!(state.mint_fits(&alice(), 1));
    assert!(state.interaction_fits(0));
    assert!(state.interaction_fits(1));
}
