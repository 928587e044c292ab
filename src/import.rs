use vstd::prelude::*;
use crate::chars::{push_char, push_str};
use crate::models::{copy_opt, Profile};
use crate::validate::{
    batch_valid, check_batch, opt_errors, profile_errors, text_errors, Field, FieldError, PatternChecks, Rule,
    LINK_MAX, NAME_MAX,
};
use crate::validate::url_ok;

verus! {

/// The largest export file that is read, in bytes.
pub const MAX_IMPORT_BYTES: u64 = 262144;

/// One member of a bulk export.
#[derive(Debug)]
pub struct PluralKitMember {
    pub name: String,
    pub display_name: Option<String>,
    pub avatar_url: Option<String>,
    pub color: Option<String>,
}

/// A bulk export: the members to import as profiles.
#[derive(Debug)]
pub struct PluralKitExport {
    pub members: Vec<PluralKitMember>,
}

/// Whether an export file is too large to read.
pub fn import_too_large(size: u64) -> (r: bool)
    ensures
        r == (size > MAX_IMPORT_BYTES),
{
    size > MAX_IMPORT_BYTES
}

/// `p` is the profile of `user` that the member `m` becomes: the same name,
/// display name and avatar, and the colour behind a `#`.
pub open spec fn member_profile(m: PluralKitMember, user: Seq<char>, p: Profile) -> bool {
    &&& p.user_id@ == user
    &&& p.name == m.name
    &&& p.display_name == m.display_name
    &&& p.avatar == m.avatar_url
    &&& match m.color {
        Some(c) => p.colour matches Some(x) && x@ == seq!['#'] + c@,
        None => p.colour is None,
    }
}

impl PluralKitMember {
    /// The profile of `user_id` that this member becomes.
    pub fn to_profile(&self, user_id: &str) -> (r: Profile)
        ensures
            member_profile(*self, user_id@, r),
    {
        let colour = match &self.color {
            Some(c) => {
                let mut s = String::new();
                push_char(&mut s, '#');
                push_str(&mut s, c.as_str());
                assert(s@ =~= seq!['#'] + c@);
                Some(s)
            },
            None => None,
        };
        Profile {
            user_id: user_id.to_owned(),
            name: self.name.clone(),
            display_name: copy_opt(&self.display_name),
            avatar: copy_opt(&self.avatar_url),
            colour,
        }
    }
}

impl PluralKitExport {
    /// The profiles of `user_id` that the members become, in order.
    pub fn to_profiles(&self, user_id: &str) -> (r: Vec<Profile>)
        ensures
            r@.len() == self.members@.len(),
            forall|i: int| 0 <= i < r@.len() ==> member_profile(self.members@[i], user_id@, #[trigger] r@[i]),
    {
        let mut out: Vec<Profile> = Vec::new();
        let mut i: usize = 0;
        while i < self.members.len()
            invariant
                i <= self.members@.len(),
                out@.len() == i,
                forall|j: int| 0 <= j < i ==> member_profile(self.members@[j], user_id@, #[trigger] out@[j]),
            decreases self.members@.len() - i,
        {
            let p = self.members[i].to_profile(user_id);
            out.push(p);
            i = i + 1;
        }
        out
    }
}

/// The rules that the profile a member becomes would break, read off the
/// member itself: its colour is checked with the `#` in front.
pub open spec fn member_errors(m: PluralKitMember, c: PatternChecks) -> Seq<FieldError> {
    text_errors(m.name@, Field::Name, NAME_MAX as nat, c.name, Rule::InvalidCharacters)
        + opt_errors(m.display_name, Field::DisplayName, NAME_MAX as nat, c.display_name, Rule::InvalidCharacters)
        + match m.avatar_url {
        Some(a) => text_errors(a@, Field::Avatar, LINK_MAX as nat, url_ok(a@), Rule::InvalidUrl),
        None => Seq::empty(),
    } + match m.color {
        Some(col) => text_errors(seq!['#'] + col@, Field::Colour, LINK_MAX as nat, c.colour, Rule::Unsupported),
        None => Seq::empty(),
    }
}

proof fn lemma_member_errors(m: PluralKitMember, user: Seq<char>, p: Profile, c: PatternChecks)
    requires
        member_profile(m, user, p),
    ensures
        profile_errors(p, c) == member_errors(m, c),
{
}

impl PluralKitExport {
    /// The profiles of `user_id` that the members become, in order, each
    /// checked with the outcome of its pattern checks: where one breaks a
    /// rule, the rules broken by the first such member instead.
    pub fn into_profiles(&self, user_id: &str, checks: &Vec<PatternChecks>) -> (r: Result<Vec<Profile>, Vec<FieldError>>)
        requires
            checks@.len() == self.members@.len(),
        ensures
            match r {
                Ok(v) => v@.len() == self.members@.len()
                    && (forall|i: int| 0 <= i < v@.len() ==> member_profile(self.members@[i], user_id@, #[trigger] v@[i]))
                    && (forall|i: int| 0 <= i < v@.len() ==> (#[trigger] member_errors(self.members@[i], checks@[i])).len() == 0),
                Err(e) => exists|i: int| 0 <= i < self.members@.len()
                    && (#[trigger] member_errors(self.members@[i], checks@[i])).len() > 0
                    && (forall|j: int| 0 <= j < i ==> (#[trigger] member_errors(self.members@[j], checks@[j])).len() == 0)
                    && e@ == member_errors(self.members@[i], checks@[i]),
            },
    {
        let profiles = self.to_profiles(user_id);
        proof {
            assert forall|i: int| 0 <= i < profiles@.len() implies profile_errors(#[trigger] profiles@[i], checks@[i]) == member_errors(self.members@[i], checks@[i]) by {
                lemma_member_errors(self.members@[i], user_id@, profiles@[i], checks@[i]);
            }
        }
        match check_batch(&profiles, checks) {
            Ok(()) => {
                proof {
                    assert forall|i: int| 0 <= i < profiles@.len() implies (#[trigger] member_errors(self.members@[i], checks@[i])).len() == 0 by {
                        assert(crate::validate::profile_valid(profiles@[i], checks@[i]));
                    }
                }
                Ok(profiles)
            },
            Err(e) => {
                proof {
                    let i = choose|i: int|
                        0 <= i < profiles@.len() && !crate::validate::profile_valid(#[trigger] profiles@[i], checks@[i])
                            && batch_valid(profiles@.take(i), checks@.take(i))
                            && e@ == profile_errors(profiles@[i], checks@[i]);
                    assert forall|j: int| 0 <= j < i implies (#[trigger] member_errors(self.members@[j], checks@[j])).len() == 0 by {
                        assert(profiles@.take(i)[j] == profiles@[j]);
                        assert(checks@.take(i)[j] == checks@[j]);
                    }
                }
                Err(e)
            },
        }
    }
}

} // verus!
