//! Errors of the command surface, and the rule that user names obey.

use vstd::prelude::*;
use vstd::utf8::encode_utf8;

use crate::types::ArcadeResponse;

verus! {

/// Whether a character counts as alphanumeric: a letter or a number of any
/// script.
pub uninterp spec fn alphanumeric(c: char) -> bool;

/// `char::is_alphanumeric`: the answer is a function of the character alone,
/// and is the one that `alphanumeric` names.
pub assume_specification[ char::is_alphanumeric ](c: char) -> (r: bool)
    ensures
        r == alphanumeric(c),
;

/// What can go wrong with a command.
#[derive(Debug, PartialEq, Eq)]
pub enum ArcadeError {
    PlayerAlreadyRegistered,
    PlayerNotRegistered,
    InvalidUsernameLength,
    InvalidUsernameCharacters,
    NotAuthenticated,
    Internal(String),
}

impl Clone for ArcadeError {
    fn clone(&self) -> (r: Self)
        ensures
            r == *self,
    {
        match self {
            ArcadeError::PlayerAlreadyRegistered => ArcadeError::PlayerAlreadyRegistered,
            ArcadeError::PlayerNotRegistered => ArcadeError::PlayerNotRegistered,
            ArcadeError::InvalidUsernameLength => ArcadeError::InvalidUsernameLength,
            ArcadeError::InvalidUsernameCharacters => ArcadeError::InvalidUsernameCharacters,
            ArcadeError::NotAuthenticated => ArcadeError::NotAuthenticated,
            ArcadeError::Internal(reason) => ArcadeError::Internal(reason.clone()),
        }
    }
}

impl ArcadeError {
    /// The message of the error, as a sequence of characters.
    pub open spec fn text(&self) -> Seq<char> {
        match *self {
            ArcadeError::PlayerAlreadyRegistered => "Player is already registered"@,
            ArcadeError::PlayerNotRegistered => "Player is not registered"@,
            ArcadeError::InvalidUsernameLength => "Username must be between 3 and 20 characters"@,
            ArcadeError::InvalidUsernameCharacters => "Username contains invalid characters"@,
            ArcadeError::NotAuthenticated => "Operation requires authentication"@,
            ArcadeError::Internal(reason) => "Internal error: "@ + reason@,
        }
    }

    /// The message of the error.
    pub fn message(&self) -> (m: String)
        ensures
            m@ == self.text(),
    {
        match self {
            ArcadeError::PlayerAlreadyRegistered => "Player is already registered".to_owned(),
            ArcadeError::PlayerNotRegistered => "Player is not registered".to_owned(),
            ArcadeError::InvalidUsernameLength => {
                "Username must be between 3 and 20 characters".to_owned()
            },
            ArcadeError::InvalidUsernameCharacters => {
                "Username contains invalid characters".to_owned()
            },
            ArcadeError::NotAuthenticated => "Operation requires authentication".to_owned(),
            ArcadeError::Internal(reason) => {
                let mut m = "Internal error: ".to_owned();
                m.append(reason.as_str());
                m
            },
        }
    }

    /// The response that reports this error to the caller of a command.
    pub fn into_response(self) -> (r: ArcadeResponse)
        ensures
            r matches ArcadeResponse::Error(m) && m@ == self.text(),
    {
        ArcadeResponse::Error(self.message())
    }
}

/// Whether a user name may hold the character: alphanumerics, `_` and `-`.
pub open spec fn allowed_in_username(c: char) -> bool {
    alphanumeric(c) || c == '_' || c == '-'
}

/// The verdict on a user name: its length in bytes is checked first and must
/// lie between 3 and 20, then every character must be allowed.
pub open spec fn username_verdict(name: Seq<char>) -> Result<(), ArcadeError> {
    let len = encode_utf8(name).len();
    if len < 3 || len > 20 {
        Err(ArcadeError::InvalidUsernameLength)
    } else if exists|i: int| 0 <= i < name.len() && !allowed_in_username(#[trigger] name[i]) {
        Err(ArcadeError::InvalidUsernameCharacters)
    } else {
        Ok(())
    }
}

/// Checks a user name: 3 to 20 bytes long, made of alphanumerics, `_` and
/// `-` only. The length is checked first: a name of the wrong length gets
/// `InvalidUsernameLength` whatever it holds.
pub fn validate_username(username: &str) -> (r: Result<(), ArcadeError>)
    ensures
        r == username_verdict(username@),
{
    let len = username.as_bytes().len();
    if len < 3 || len > 20 {
        return Err(ArcadeError::InvalidUsernameLength);
    }
    for c in it: username.chars()
        invariant
            it.seq() == username@,
            3 <= encode_utf8(username@).len() <= 20,
            forall|i: int| 0 <= i < it.index() ==> allowed_in_username(#[trigger] username@[i]),
    {
        if !(c.is_alphanumeric() || c == '_' || c == '-') {
            assert(!allowed_in_username(username@[it.index() as int]));
            return Err(ArcadeError::InvalidUsernameCharacters);
        }
    }
    Ok(())
}

} // verus!
