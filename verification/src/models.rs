//! Plain data shapes of the service surface around the matcher: token
//! claims, user payloads and usage records. The library only carries
//! them; the service edge serializes and stores them.
use vstd::prelude::*;

verus! {

/// The claims carried by an access token.
pub struct Claims {
    pub sub: String,
    pub email: String,
    pub exp: usize,
}

/// User data shown to a caller.
pub struct UserResponse {
    pub id: String,
    pub email: String,
    pub api_usage_count: i64,
}

/// Payload for updating a user.
pub struct UpdateUser {
    pub email: Option<String>,
    pub password: Option<String>,
}

/// Payload for registering a user.
pub struct RegisterUser {
    pub email: String,
    pub password: String,
}

/// Payload for logging in.
pub struct LoginUser {
    pub email: String,
    pub password: String,
}

/// The answer to a successful login.
pub struct Token {
    pub token: String,
}

/// One recorded API call.
pub struct ApiUsage {
    pub id: i32,
    pub user_id: String,
    pub api_link: String,
    pub timestamp: String,
}

} // verus!
