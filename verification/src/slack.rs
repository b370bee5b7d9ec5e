//! What the Slack Web API answers.

use vstd::prelude::*;

verus! {

/// The `ok` flag that every answer carries.
pub struct GenericResult {
    pub ok: bool,
}

/// An answer: what was asked for, or the error that Slack names.
pub enum ApiResult<T> {
    Answered(T),
    Errored(String),
}

impl<T> ApiResult<T> {
    /// The answer as a `Result`.
    pub fn into_result(self) -> (r: Result<T, String>)
        ensures
            match self {
                ApiResult::Answered(v) => r == Ok::<T, String>(v),
                ApiResult::Errored(e) => r == Err::<T, String>(e),
            },
    {
        match self {
            ApiResult::Answered(v) => Ok(v),
            ApiResult::Errored(e) => Err(e),
        }
    }
}

/// A member in a list of users.
pub struct ListedUser {
    pub id: String,
}

/// A list of users.
pub struct UsersList {
    pub resources: Vec<ListedUser>,
}

/// A Web API method, and the answer it gives.
pub trait Api {
    type Response;
}

/// The answer of `auth.test`: the name and id of the token's user.
pub struct AuthTestResponse {
    pub user: String,
    pub user_id: String,
}

/// The `auth.test` method, which tells whom the token belongs to.
pub struct AuthTestRequest;

/// Where `auth.test` is called.
pub const AUTH_TEST_ENDPOINT: &'static str = "https://slack.com/api/auth.test";

impl Api for AuthTestRequest {
    type Response = AuthTestResponse;
}

} // verus!
