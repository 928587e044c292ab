use vstd::prelude::*;
use crate::error::{Error, Permission};
use crate::models::Profile;

verus! {

/// What one identity may do in a channel, as far as sending under a profile
/// is concerned.
#[derive(Debug, Clone, Copy, PartialEq, Eq, Structural)]
pub struct Capabilities {
    /// May send messages under a custom name and avatar.
    pub masquerade: bool,
    /// May give such messages a colour.
    pub manage_role: bool,
}

/// The profile as it may be sent by a bot with capabilities `bot`: without
/// its colour where the bot may not set colours.
pub open spec fn gated(profile: Profile, bot: Capabilities) -> Profile {
    if bot.masquerade && !bot.manage_role {
        Profile { colour: None, ..profile }
    } else {
        profile
    }
}

/// Decides whether a profile may be sent in a channel: the bot must be able
/// to send under a profile, and so must the user; a bot that may not set
/// colours sends the profile without its colour.
pub fn check_profile(bot: Capabilities, user: Capabilities, profile: &mut Profile) -> (r: Result<(), Error>)
    ensures
        *final(profile) == gated(*old(profile), bot),
        !bot.masquerade ==> r matches Err(Error::BotMissing(Permission::Masquerade)),
        bot.masquerade && !user.masquerade ==> r matches Err(Error::UserMissing(Permission::Masquerade)),
        bot.masquerade && user.masquerade ==> r is Ok,
{
    if !bot.masquerade {
        return Err(Error::BotMissing(Permission::Masquerade));
    }
    if !bot.manage_role {
        profile.colour = None;
    }
    if !user.masquerade {
        return Err(Error::UserMissing(Permission::Masquerade));
    }
    Ok(())
}

} // verus!
