use vstd::prelude::*;

verus! {

/// Why a store operation rejected its input.
#[derive(Debug, Clone, Copy, PartialEq, Eq, Structural)]
pub enum InputError {
    EmptyUsername,
    InvalidEmail,
    UsernameTaken,
    EmailTaken,
    UnknownSender,
    UnknownRecipient,
    UnknownUser,
}

/// Errors returned by the store and the services built on it.
#[derive(Debug, Clone, Copy, PartialEq, Eq, Structural)]
pub enum AppError {
    /// The caller's input was rejected; nothing was changed.
    InvalidInput(InputError),
    /// Every identity of the counter's type has been handed out.
    IdsExhausted,
}

impl InputError {
    /// A short human-readable description of the rejection.
    pub fn description(&self) -> (r: &'static str)
        ensures
            r@ == match *self {
                InputError::EmptyUsername => "Username cannot be empty"@,
                InputError::InvalidEmail => "Invalid email format"@,
                InputError::UsernameTaken => "Username already taken"@,
                InputError::EmailTaken => "Email already registered"@,
                InputError::UnknownSender => "Sender does not exist"@,
                InputError::UnknownRecipient => "Recipient does not exist"@,
                InputError::UnknownUser => "User does not exist"@,
            },
    {
        match self {
            InputError::EmptyUsername => "Username cannot be empty",
            InputError::InvalidEmail => "Invalid email format",
            InputError::UsernameTaken => "Username already taken",
            InputError::EmailTaken => "Email already registered",
            InputError::UnknownSender => "Sender does not exist",
            InputError::UnknownRecipient => "Recipient does not exist",
            InputError::UnknownUser => "User does not exist",
        }
    }
}

} // verus!
