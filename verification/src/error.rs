//! What the commands refuse, and why.

use vstd::prelude::*;
use crate::text::{decimal, push_decimal};
use crate::utils::entities::KeyField;

verus! {

/// The reasons a command stops.
#[derive(Debug)]
pub enum XrayError {
    /// The configuration has no client array at
    /// `inbounds[0].settings.clients`.
    NoClientsArray,
    /// There is no client to list.
    NoClientsConfigured,
    /// There is no client to remove.
    NoClientsToRemove,
    /// There is no client to share a link for.
    NoClientsFound,
    /// There is no first client for the main user's link.
    NoClientsInConfig,
    /// The new username is empty.
    EmptyUsername,
    /// The new username contains a space.
    UsernameHasSpaces,
    /// A client with this username exists already.
    UserExists(String),
    /// The answer is not a number.
    InvalidNumber,
    /// The number is not between 1 and the given maximum.
    NumberOutOfRange(usize),
    /// The credential file lacks this field.
    MissingKey(KeyField),
    /// The configuration text is no JSON.
    ConfigParse,
    /// The configuration has a number that cannot be written as JSON.
    ConfigUnwritable,
}

/// The message shown for an error.
pub open spec fn error_message(e: XrayError) -> Seq<char> {
    match e {
        XrayError::NoClientsArray => "No clients array in config"@,
        XrayError::NoClientsConfigured => "No clients configured"@,
        XrayError::NoClientsToRemove => "No clients to remove"@,
        XrayError::NoClientsFound => "No clients found"@,
        XrayError::NoClientsInConfig => "No clients found in config"@,
        XrayError::EmptyUsername => "Username cannot be empty"@,
        XrayError::UsernameHasSpaces => "Username cannot contain spaces"@,
        XrayError::UserExists(name) => "A user named '"@ + name@ + "' already exists"@,
        XrayError::InvalidNumber => "Please enter a valid number"@,
        XrayError::NumberOutOfRange(max) => "Number must be between 1 and "@ + decimal(max as nat),
        XrayError::MissingKey(KeyField::Uuid) => "uuid not found in .keys"@,
        XrayError::MissingKey(KeyField::PrivateKey) => "PrivateKey not found in .keys"@,
        XrayError::MissingKey(KeyField::PublicKey) => "Password/PublicKey not found in .keys"@,
        XrayError::MissingKey(KeyField::ShortId) => "shortsid not found in .keys"@,
        XrayError::ConfigParse => "Failed to parse config.json"@,
        XrayError::ConfigUnwritable => "Failed to write config.json: a number is no JSON number"@,
    }
}

impl XrayError {
    /// The message shown for this error.
    pub fn message(&self) -> (r: String)
        ensures
            r@ == error_message(*self),
    {
        match self {
            XrayError::NoClientsArray => "No clients array in config".to_owned(),
            XrayError::NoClientsConfigured => "No clients configured".to_owned(),
            XrayError::NoClientsToRemove => "No clients to remove".to_owned(),
            XrayError::NoClientsFound => "No clients found".to_owned(),
            XrayError::NoClientsInConfig => "No clients found in config".to_owned(),
            XrayError::EmptyUsername => "Username cannot be empty".to_owned(),
            XrayError::UsernameHasSpaces => "Username cannot contain spaces".to_owned(),
            XrayError::UserExists(name) => {
                let mut m = "A user named '".to_owned();
                m.append(name.as_str());
                m.append("' already exists");
                m
            },
            XrayError::InvalidNumber => "Please enter a valid number".to_owned(),
            XrayError::NumberOutOfRange(max) => {
                let mut m = "Number must be between 1 and ".to_owned();
                push_decimal(&mut m, *max as u64);
                m
            },
            XrayError::MissingKey(KeyField::Uuid) => "uuid not found in .keys".to_owned(),
            XrayError::MissingKey(KeyField::PrivateKey) => "PrivateKey not found in .keys".to_owned(),
            XrayError::MissingKey(KeyField::PublicKey) => "Password/PublicKey not found in .keys".to_owned(),
            XrayError::MissingKey(KeyField::ShortId) => "shortsid not found in .keys".to_owned(),
            XrayError::ConfigParse => "Failed to parse config.json".to_owned(),
            XrayError::ConfigUnwritable => "Failed to write config.json: a number is no JSON number".to_owned(),
        }
    }
}

} // verus!
