use vstd::prelude::*;
use crate::validate::FieldError;

verus! {

/// A capability that a user or the bot holds, or lacks, in a channel.
#[derive(Debug, Clone, Copy, PartialEq, Eq, Structural)]
pub enum Permission {
    SendMessage,
    ManageMessages,
    ManageRole,
    Masquerade,
}

/// The failures of the profile logic.
#[derive(Debug)]
pub enum Error {
    /// The bot lacks a capability it needs in the channel.
    BotMissing(Permission),
    /// The acting user lacks a capability in the channel.
    UserMissing(Permission),
    /// The profile breaks these rules.
    Validate(Vec<FieldError>),
    /// The user already holds this many profiles.
    UserMaxProfiles(usize),
    /// No profile of that name exists for the user.
    ProfileNotFound,
}

} // verus!
