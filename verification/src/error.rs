//! The errors of the library.

use vstd::prelude::*;
use vstd::string::StringExecFns;
use crate::text::{crc_message, crc_text};

verus! {

/// Why a password, a pattern or a game state was rejected.
#[derive(Clone, Debug, PartialEq, Eq, Hash)]
pub enum Dq1PasswordError {
    /// A field is out of range or the hero's name is malformed.
    InvalidGameState(String),
    /// The password does not have twenty characters of the password alphabet.
    InvalidPassword(String),
    /// The check byte stored in the password (`expect`) is not the low byte
    /// of the CRC computed over the rest (`actual`).
    CrcMismatch { expect: u8, actual: u16 },
    /// The pattern does not have twenty characters of the password alphabet
    /// or wildcards.
    InvalidPattern(String),
}

pub type Dq1PasswordResult<T> = Result<T, Dq1PasswordError>;

/// An error without its diagnostic text: what contracts speak of.
pub enum ErrorKind {
    InvalidGameState,
    InvalidPassword,
    CrcMismatch { expect: u8, actual: u16 },
    InvalidPattern,
}

impl Dq1PasswordError {
    /// The kind of this error.
    pub open spec fn kind(&self) -> ErrorKind {
        match self {
            Dq1PasswordError::InvalidGameState(_) => ErrorKind::InvalidGameState,
            Dq1PasswordError::InvalidPassword(_) => ErrorKind::InvalidPassword,
            Dq1PasswordError::CrcMismatch { expect, actual } => ErrorKind::CrcMismatch {
                expect: *expect,
                actual: *actual,
            },
            Dq1PasswordError::InvalidPattern(_) => ErrorKind::InvalidPattern,
        }
    }

    /// The error as one line of text: what kind it is, then its diagnostic.
    pub fn message(&self) -> (text: String)
        ensures
            self matches Dq1PasswordError::InvalidGameState(msg) ==> text@ == "ゲーム状態が無効: "@
                + msg@,
            self matches Dq1PasswordError::InvalidPassword(msg) ==> text@
                == "復活の呪文の形式が無効: "@ + msg@,
            self matches Dq1PasswordError::InvalidPattern(msg) ==> text@ == "パターンが無効: "@
                + msg@,
            self matches Dq1PasswordError::CrcMismatch { expect, actual } ==> text@ == crc_text(
                *expect,
                *actual,
            ),
    {
        match self {
            Dq1PasswordError::InvalidGameState(msg) => String::from_str(
                "ゲーム状態が無効: ",
            ).concat(msg.as_str()),
            Dq1PasswordError::InvalidPassword(msg) => String::from_str(
                "復活の呪文の形式が無効: ",
            ).concat(msg.as_str()),
            Dq1PasswordError::CrcMismatch { expect, actual } => crc_message(*expect, *actual),
            Dq1PasswordError::InvalidPattern(msg) => String::from_str("パターンが無効: ").concat(
                msg.as_str(),
            ),
        }
    }

    pub fn invalid_game_state(msg: String) -> (e: Self)
        ensures
            e == Dq1PasswordError::InvalidGameState(msg),
    {
        Dq1PasswordError::InvalidGameState(msg)
    }

    pub fn invalid_password(msg: String) -> (e: Self)
        ensures
            e == Dq1PasswordError::InvalidPassword(msg),
    {
        Dq1PasswordError::InvalidPassword(msg)
    }

    pub fn crc_mismatch(expect: u8, actual: u16) -> (e: Self)
        ensures
            e == (Dq1PasswordError::CrcMismatch { expect, actual }),
    {
        Dq1PasswordError::CrcMismatch { expect, actual }
    }

    pub fn invalid_pattern(msg: String) -> (e: Self)
        ensures
            e == Dq1PasswordError::InvalidPattern(msg),
    {
        Dq1PasswordError::InvalidPattern(msg)
    }
}

/// A result as contracts see it: the view of the value, or the kind of the
/// error.
pub open spec fn outcome<T: View>(r: Result<T, Dq1PasswordError>) -> Result<T::V, ErrorKind> {
    match r {
        Ok(v) => Ok(v@),
        Err(e) => Err(e.kind()),
    }
}

} // verus!
