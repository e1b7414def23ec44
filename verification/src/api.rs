//! Shapes that the control surface exchanges with its callers.

use vstd::prelude::*;
use vstd::string::*;
use crate::models::ChargingMode;

verus! {

/// The envelope of an answer: whether the call succeeded, a message, and
/// the data if there is any.
#[derive(Debug)]
pub struct ApiResponse<T> {
    /// Whether the call succeeded.
    pub success: bool,
    /// A message for the caller.
    pub message: String,
    /// What the call returned.
    pub data: Option<T>,
}

impl<T> ApiResponse<T> {
    /// The answer to a call that succeeded.
    pub fn success(data: T, message: &str) -> (response: Self)
        ensures
            response.success,
            response.message@ == message@,
            response.data == Some(data),
    {
        ApiResponse { success: true, message: String::from_str(message), data: Some(data) }
    }

    /// The answer to a call that failed.
    pub fn error(message: &str) -> (response: Self)
        ensures
            !response.success,
            response.message@ == message@,
            response.data.is_none(),
    {
        ApiResponse { success: false, message: String::from_str(message), data: None }
    }
}

/// What the caller sends to make a request.
#[derive(Debug)]
pub struct CreateChargingRequestPayload {
    /// Identifier of the user.
    pub user_id: u128,
    /// Mode asked for.
    pub mode: ChargingMode,
    /// Energy asked for, in watt-hours.
    pub amount: u32,
}

/// What the caller sends to change the mode of a request.
#[derive(Debug)]
pub struct UpdateChargingModePayload {
    /// The new mode.
    pub mode: ChargingMode,
    /// The queue number that the caller proposes; the scheduler hands out
    /// its own.
    pub queue_number: String,
}

/// What the caller sends to change the amount of a request.
#[derive(Debug)]
pub struct UpdateChargingAmountPayload {
    /// The new amount, in watt-hours.
    pub amount: u32,
}

/// What the caller sends to register.
#[derive(Debug)]
pub struct NewUser {
    /// Name under which the user will log in.
    pub username: String,
    /// Password in clear.
    pub password: String,
    /// Whether the user administers the station.
    pub is_admin: bool,
}

/// What the caller sends to log in.
#[derive(Debug)]
pub struct LoginRequest {
    /// Name under which the user logs in.
    pub username: String,
    /// Password in clear.
    pub password: String,
}

} // verus!
