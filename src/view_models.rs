use vstd::prelude::*;

verus! {

/// Shortest accepted user name, in characters.
pub const USERNAME_MIN_CHARS: usize = 1;

/// Longest accepted user name, in characters.
pub const USERNAME_MAX_CHARS: usize = 50;

/// Shortest accepted password, in characters.
pub const PASSWORD_MIN_CHARS: usize = 8;

/// A sign-up request.
pub struct UserSignup {
    pub username: String,
    pub password: String,
}

/// Which field of a sign-up request was rejected.
#[derive(PartialEq, Eq, Structural, Clone, Copy, Debug)]
pub enum SignupError {
    UsernameLength,
    PasswordLength,
}

/// What the service shows of an account.
pub struct UserView {
    pub id: String,
    pub username: String,
}

impl UserSignup {
    /// Accepts a user name of 1 to 50 characters and a password of at least
    /// 8 characters; the user name is checked first.
    pub fn validate(&self) -> (r: Result<(), SignupError>)
        ensures
            !(USERNAME_MIN_CHARS <= self.username@.len() <= USERNAME_MAX_CHARS) ==> r == Err::<(), SignupError>(
                SignupError::UsernameLength,
            ),
            USERNAME_MIN_CHARS <= self.username@.len() <= USERNAME_MAX_CHARS && self.password@.len()
                < PASSWORD_MIN_CHARS ==> r == Err::<(), SignupError>(SignupError::PasswordLength),
            USERNAME_MIN_CHARS <= self.username@.len() <= USERNAME_MAX_CHARS && self.password@.len()
                >= PASSWORD_MIN_CHARS ==> r is Ok,
    {
        let u = self.username.as_str().unicode_len();
        if u < USERNAME_MIN_CHARS || u > USERNAME_MAX_CHARS {
            return Err(SignupError::UsernameLength);
        }
        if self.password.as_str().unicode_len() < PASSWORD_MIN_CHARS {
            return Err(SignupError::PasswordLength);
        }
        Ok(())
    }
}

} // verus!
