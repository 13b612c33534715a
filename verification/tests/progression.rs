use anima::{AnimaData, Error, InteractionResponse, State, EXPERIENCE_GAIN, LEVEL_THRESHOLD};
use candid::Principal;

fn owner() -> Principal {
    Principal::from_slice(&[7, 7])
}

fn anima_at(level: u64, experience: u64) -> AnimaData {
    AnimaData {
        owner: owner(),
        designation: "ANIMA-00000000".to_string(),
        created_at: 1,
        level,
        experience,
        payment_memo: 9,
    }
}

fn ledger_with_one_anima() -> State {
    let mut state = State::default();
    state.register_payment(owner(), 9, 1).unwrap();
    state.mint_anima(owner(), 9, 1).unwrap();
    state
}

#[test]
fn constants_are_ten_and_a_hundred() {
    assert_eq!(EXPERIENCE_GAIN, 10);
    assert_eq!(LEVEL_THRESHOLD, 100);
}

#[test]
fn crossing_the_threshold_raises_the_level() {
    let mut anima = anima_at(1, 95);
    anima.gain_experience(EXPERIENCE_GAIN);
    assert_eq!(anima.experience, 105);
    assert_eq!(anima.level, 2);
}

#[test]
fn reaching_the_threshold_exactly_raises_the_level() {
    let mut anima = anima_at(1, 90);
    anima.gain_experience(10);
    assert_eq!((anima.experience, anima.level), (100, 2));
    let mut anima = anima_at(1, 89);
    anima.gain_experience(10);
    assert_eq!((anima.experience, anima.level), (99, 1));
}

#[test]
fn a_large_gain_raises_several_levels() {
    let mut anima = anima_at(1, 0);
    anima.gain_experience(1_000);
    assert_eq!((anima.experience, anima.level), (1_000, 11));
    let mut anima = anima_at(3, 250);
    anima.gain_experience(349);
    assert_eq!((anima.experience, anima.level), (599, 6));
}

#[test]
fn a_level_ahead_of_its_experience_stays() {
    let mut anima = anima_at(5, 0);
    anima.gain_experience(10);
    assert_eq!((anima.experience, anima.level), (10, 5));
    let mut anima = anima_at(5, 490);
    anima.gain_experience(10);
    assert_eq!((anima.experience, anima.level), (500, 6));
}

#[test]
fn gaining_nothing_only_settles_the_level() {
    let mut anima = anima_at(1, 0);
    anima.gain_experience(0);
    assert_eq!((anima.experience, anima.level), (0, 1));
    let mut anima = anima_at(1, 300);
    anima.gain_experience(0);
    assert_eq!((anima.experience, anima.level), (300, 4));
}

#[test]
fn gain_up_to_the_largest_experience() {
    let mut anima = anima_at(u64::MAX / 100 + 1, u64::MAX - 10);
    anima.gain_experience(10);
    assert_eq!(anima.experience, u64::MAX);
    assert_eq!(anima.level, u64::MAX / 100 + 1);
    let mut anima = anima_at(u64::MAX, 5);
    anima.gain_experience(10);
    assert_eq!((anima.experience, anima.level), (15, u64::MAX));
}

#[test]
fn gain_leaves_the_rest_of_the_record() {
    let mut anima = anima_at(1, 95);
    anima.gain_experience(10);
    assert_eq!(anima, AnimaData { level: 2, experience: 105, ..anima_at(1, 95) });
}

#[test]
fn interact_adds_ten_and_confirms() {
    let mut state = ledger_with_one_anima();
    let response = state.interact(0, None).unwrap();
    assert_eq!(
        response,
        InteractionResponse {
            message: "Interaction successful. Experience gained: 10".to_string(),
            experience_gained: 10,
        }
    );
    let anima = state.get_anima(0).unwrap();
    assert_eq!((anima.experience, anima.level), (10, 1));
}

#[test]
fn interact_ignores_the_message() {
    let mut with = ledger_with_one_anima();
    let mut without = ledger_with_one_anima();
    let a = with.interact(0, Some("hello".to_string())).unwrap();
    let b = without.interact(0, None).unwrap();
    assert_eq!(a, b);
    assert_eq!(with.get_anima(0), without.get_anima(0));
}

#[test]
fn interact_on_missing_anima_is_not_found() {
    let mut state = State::default();
    assert_eq!(state.interact(0, None), Err(Error::AssetNotFound));
    let mut state = ledger_with_one_anima();
    let before = state.get_anima(0);
    assert_eq!(state.interact(1, None), Err(Error::AssetNotFound));
    assert_eq!(state.interact(u64::MAX, Some("x".to_string())), Err(Error::AssetNotFound));
    assert_eq!(state.get_anima(0), before);
    assert_eq!(state.next_token_id(), 1);
}

#[test]
fn repeated_interactions_never_lose_progress() {
    let mut state = ledger_with_one_anima();
    let mut last = state.get_anima(0).unwrap();
    for n in 1..=35u64 {
        state.interact(0, None).unwrap();
        let now = state.get_anima(0).unwrap();
        assert_eq!(now.experience, last.experience + 10);
        assert!(now.level >= last.level);
        assert_eq!(now.experience, n * 10);
        assert_eq!(now.level, n * 10 / 100 + 1);
        assert_eq!(now.owner, last.owner);
        assert_eq!(now.designation, last.designation);
        assert_eq!(now.created_at, last.created_at);
        assert_eq!(now.payment_memo, last.payment_memo);
        last = now;
    }
    assert_eq!((last.experience, last.level), (350, 4));
}

#[test]
fn tenth_interaction_reaches_level_two() {
    let mut state = ledger_with_one_anima();
    for _ in 0..9 {
        state.interact(0, None).unwrap();
    }
    let anima = state.get_anima(0).unwrap();
    assert_eq!((anima.experience, anima.level), (90, 1));
    state.interact(0, None).unwrap();
    let anima = state.get_anima(0).unwrap();
    assert_eq!((anima.experience, anima.level), (100, 2));
}

#[test]
fn anybody_may_interact_and_only_the_named_anima_gains() {
    let mut state = ledger_with_one_anima();
    state.register_payment(Principal::anonymous(), 10, 2).unwrap();
    state.mint_anima(Principal::anonymous(), 10, 2).unwrap();
    let other = state.get_anima(0);
    state.interact(1, None).unwrap();
    assert_eq!(state.get_anima(0), other);
    assert_eq!(state.get_anima(1).unwrap().experience, 10);
    // payments are untouched by interactions
    assert_eq!(state.mint_anima(owner(), 9, 3), Err(Error::PaymentAlreadyConsumed));
    assert_eq!(state.next_token_id(), 2);
}
