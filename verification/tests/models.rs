use sybl::models::client_model::{AccessToken, ClientModel, TOKEN_LIFETIME_MILLIS};
use sybl::models::models::Status;
use sybl::models::ObjectId;

fn model() -> ClientModel {
    ClientModel::new(ObjectId::from_bytes([1; 12]), String::from("forest"), vec![9, 9])
}

#[test]
fn new_models_are_locked_and_not_started() {
    let model = model();
    assert_eq!(model.status, Status::NotStarted);
    assert!(model.locked);
    assert!(!model.authenticated);
    assert_eq!(model.challenge, Some(vec![9, 9]));
    assert_eq!(model.times_run, 0);
    assert!(model.access_token.is_none());
}

#[test]
fn only_unlocked_authenticated_models_with_the_token_are_let_in() {
    let mut model = model();
    model.access_token = Some(AccessToken::issued_at(vec![1, 2, 3], 1_000));
    assert!(!model.is_authenticated(&[1, 2, 3]));
    model.authenticated = true;
    assert!(!model.is_authenticated(&[1, 2, 3]));
    model.locked = false;
    assert!(model.is_authenticated(&[1, 2, 3]));
    assert!(!model.is_authenticated(&[1, 2]));
    assert!(!model.is_authenticated(&[1, 2, 4]));
}

#[test]
fn tokens_expire_two_weeks_after_they_are_issued() {
    let token = AccessToken::issued_at(vec![7], 5_000);
    assert_eq!(token.expires, 5_000 + TOKEN_LIFETIME_MILLIS);
    assert_eq!(TOKEN_LIFETIME_MILLIS, 14 * 24 * 60 * 60 * 1000);
    let mut model = model();
    assert!(!model.token_valid_at(0));
    assert!(!model.token_has_not_expired());
    model.access_token = Some(token);
    assert!(model.token_valid_at(5_000 + TOKEN_LIFETIME_MILLIS - 1));
    assert!(!model.token_valid_at(5_000 + TOKEN_LIFETIME_MILLIS));
    assert!(!model.token_has_not_expired());
}
