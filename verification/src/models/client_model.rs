//! The records of clients' models: whether a model may take part in jobs,
//! and the access token it authenticates with.

use vstd::prelude::*;

use crate::models::jobs::now_millis;
use crate::models::models::Status;
use crate::models::ObjectId;

verus! {

/// How long an access token stays valid: two weeks, in milliseconds.
pub const TOKEN_LIFETIME_MILLIS: i64 = 1209600000;

/// An access token and the time it expires.
#[derive(Debug, Clone, PartialEq, Eq)]
pub struct AccessToken {
    /// The bytes of the token.
    pub token: Vec<u8>,
    /// When the token expires, in milliseconds since the Unix epoch.
    pub expires: i64,
}

impl AccessToken {
    /// The token `token`, issued at `now` (in milliseconds since the Unix
    /// epoch), which expires two weeks later.
    pub fn issued_at(token: Vec<u8>, now: i64) -> (issued: AccessToken)
        requires
            now + TOKEN_LIFETIME_MILLIS <= i64::MAX,
        ensures
            issued.token@ == token@,
            issued.expires == now + TOKEN_LIFETIME_MILLIS,
    {
        AccessToken { token, expires: now + TOKEN_LIFETIME_MILLIS }
    }
}

/// Defines the information that should be stored as details for a model
#[derive(Debug, Clone, PartialEq, Eq)]
pub struct ClientModel {
    /// The unique identifier for the client model
    pub id: ObjectId,
    /// The user id which this models belongs to
    pub user_id: ObjectId,
    /// name provided for the model
    pub name: String,
    /// Status of the model
    pub status: Status,
    /// The access token for the model, if set
    pub access_token: Option<AccessToken>,
    /// false if the model has been unlocked through web
    pub locked: bool,
    /// false if model has not been authenticated with private key
    pub authenticated: bool,
    /// The most recent challenge sent to client
    pub challenge: Option<Vec<u8>>,
    /// The number of times the model has been run
    pub times_run: i32,
}

/// Whether a model may use `token`: it has been authenticated and unlocked,
/// and `token` is its access token.
pub open spec fn spec_is_authenticated(model: ClientModel, token: Seq<u8>) -> bool {
    &&& model.authenticated
    &&& !model.locked
    &&& model.access_token matches Some(t) && t.token@ == token
}

/// Whether a model has an access token that is still valid at `now`.
pub open spec fn token_valid_at(model: ClientModel, now: int) -> bool {
    model.access_token matches Some(t) && t.expires > now
}

/// Whether two byte strings are equal.
fn same_bytes(a: &[u8], b: &[u8]) -> (same: bool)
    ensures
        same == (a@ == b@),
{
    if a.len() != b.len() {
        return false;
    }
    let mut i: usize = 0;
    while i < a.len()
        invariant
            a@.len() == b@.len(),
            i <= a@.len(),
            forall|j: int| 0 <= j < i ==> a@[j] == b@[j],
        decreases a@.len() - i,
    {
        if a[i] != b[i] {
            return false;
        }
        i += 1;
    }
    assert(a@ =~= b@);
    true
}

impl ClientModel {
    /// A model of the user `user_id`, named `name`, that has just been sent
    /// `challenge`: it has not started, is locked and not yet authenticated.
    pub fn new(user_id: ObjectId, name: String, challenge: Vec<u8>) -> (model: Self)
        ensures
            model.user_id == user_id,
            model.name@ == name@,
            model.status == Status::NotStarted,
            model.access_token is None,
            model.locked,
            !model.authenticated,
            model.challenge matches Some(c) && c@ == challenge@,
            model.times_run == 0,
    {
        ClientModel {
            id: ObjectId::new(),
            user_id,
            name,
            status: Status::NotStarted,
            access_token: None,
            locked: true,
            authenticated: false,
            challenge: Some(challenge),
            times_run: 0,
        }
    }

    /// Whether the model may use `token`.
    pub fn is_authenticated(&self, token: &[u8]) -> (authenticated: bool)
        ensures
            authenticated == spec_is_authenticated(*self, token@),
    {
        if !self.authenticated || self.locked {
            return false;
        }
        match &self.access_token {
            Some(t) => same_bytes(t.token.as_slice(), token),
            None => false,
        }
    }

    /// Whether the model's access token is still valid at `now`, in
    /// milliseconds since the Unix epoch.
    pub fn token_valid_at(&self, now: i64) -> (valid: bool)
        ensures
            valid == token_valid_at(*self, now as int),
    {
        match &self.access_token {
            Some(t) => t.expires > now,
            None => false,
        }
    }

    /// Checks whether the client's token has not expired: a model without a
    /// token has none that is valid; otherwise its expiry is compared with
    /// the current time, read from the clock in milliseconds since the Unix
    /// epoch (a time from the epoch to below 2^43 seconds after it).
    pub fn token_has_not_expired(&self) -> (valid: bool)
        ensures
            self.access_token is None ==> !valid,
            exists|now: int|
                0 <= now < 8796093022208000 && valid == #[trigger] token_valid_at(*self, now),
    {
        let now = now_millis();
        let valid = self.token_valid_at(now);
        assert(valid == token_valid_at(*self, now as int));
        valid
    }
}

} // verus!
