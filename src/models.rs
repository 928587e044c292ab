use vstd::prelude::*;

verus! {

/// The record of which user triggered a message sent under a profile.
#[derive(Debug)]
pub struct Author {
    pub message_id: String,
    pub user_id: String,
}

/// A named persona of one user.
#[derive(Debug)]
pub struct Profile {
    pub user_id: String,
    pub name: String,
    pub display_name: Option<String>,
    pub avatar: Option<String>,
    pub colour: Option<String>,
}

/// Copies an optional string, keeping it equal to the given one.
pub fn copy_opt(o: &Option<String>) -> (r: Option<String>)
    ensures
        r == *o,
{
    match o {
        Some(s) => Some(s.clone()),
        None => None,
    }
}

impl Clone for Author {
    fn clone(&self) -> (r: Self)
        ensures
            r == *self,
    {
        Author { message_id: self.message_id.clone(), user_id: self.user_id.clone() }
    }
}

impl Clone for Profile {
    fn clone(&self) -> (r: Self)
        ensures
            r == *self,
    {
        Profile {
            user_id: self.user_id.clone(),
            name: self.name.clone(),
            display_name: copy_opt(&self.display_name),
            avatar: copy_opt(&self.avatar),
            colour: copy_opt(&self.colour),
        }
    }
}

impl Profile {
    /// A profile with only its owner and name set.
    pub fn new(user_id: &str, name: &str) -> (r: Self)
        ensures
            r.user_id@ == user_id@,
            r.name@ == name@,
            r.display_name is None,
            r.avatar is None,
            r.colour is None,
    {
        Profile {
            user_id: user_id.to_owned(),
            name: name.to_owned(),
            display_name: None,
            avatar: None,
            colour: None,
        }
    }

    /// The name shown for messages sent under this profile: its display name,
    /// or its name where it has none.
    pub fn shown_name(&self) -> (r: String)
        ensures
            r == match self.display_name {
                Some(d) => d,
                None => self.name,
            },
    {
        match &self.display_name {
            Some(d) => d.clone(),
            None => self.name.clone(),
        }
    }
}

} // verus!
