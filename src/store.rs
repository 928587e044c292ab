use vstd::prelude::*;
use crate::error::Error;
use crate::models::Profile;
use crate::sorted::{
    find_position, lemma_lookup_at, lemma_lookup_contains, lemma_upserted_len, lookup, name_index, remove_named, removed, sorted_by_name, upsert_sorted,
    upserted,
};
use crate::validate::{
    batch_valid, check_batch, profile_errors, profile_valid, profile_violations, PatternChecks,
};

verus! {

/// The most profiles that one user may hold.
pub const MAX_PROFILES: usize = 256;

/// The key of a default assignment: its scope and the ids it belongs to.
#[derive(Debug)]
pub enum DefaultProfileDocId {
    Global { user_id: String },
    Server { user_id: String, server_id: String },
    Channel { user_id: String, channel_id: String },
}

/// The value of a default-assignment key.
pub enum DefaultKey {
    Global(Seq<char>),
    Server(Seq<char>, Seq<char>),
    Channel(Seq<char>, Seq<char>),
}

impl View for DefaultProfileDocId {
    type V = DefaultKey;

    open spec fn view(&self) -> DefaultKey {
        match self {
            DefaultProfileDocId::Global { user_id } => DefaultKey::Global(user_id@),
            DefaultProfileDocId::Server { user_id, server_id } => DefaultKey::Server(user_id@, server_id@),
            DefaultProfileDocId::Channel { user_id, channel_id } => DefaultKey::Channel(user_id@, channel_id@),
        }
    }
}

/// The user that a default-assignment key belongs to.
pub open spec fn key_owner(k: DefaultKey) -> Seq<char> {
    match k {
        DefaultKey::Global(u) => u,
        DefaultKey::Server(u, _) => u,
        DefaultKey::Channel(u, _) => u,
    }
}

impl Clone for DefaultProfileDocId {
    fn clone(&self) -> (r: Self)
        ensures
            r == *self,
    {
        match self {
            DefaultProfileDocId::Global { user_id } => DefaultProfileDocId::Global { user_id: user_id.clone() },
            DefaultProfileDocId::Server { user_id, server_id } => DefaultProfileDocId::Server {
                user_id: user_id.clone(),
                server_id: server_id.clone(),
            },
            DefaultProfileDocId::Channel { user_id, channel_id } => DefaultProfileDocId::Channel {
                user_id: user_id.clone(),
                channel_id: channel_id.clone(),
            },
        }
    }
}

impl DefaultProfileDocId {
    /// The user the key belongs to.
    pub fn user_id(&self) -> (r: &String)
        ensures
            r@ == key_owner(self@),
    {
        match self {
            DefaultProfileDocId::Global { user_id } => user_id,
            DefaultProfileDocId::Server { user_id, .. } => user_id,
            DefaultProfileDocId::Channel { user_id, .. } => user_id,
        }
    }

    /// Whether two keys name the same scope and ids.
    pub fn same_key(&self, other: &Self) -> (r: bool)
        ensures
            r == (self@ == other@),
    {
        match (self, other) {
            (DefaultProfileDocId::Global { user_id: a }, DefaultProfileDocId::Global { user_id: b }) => *a == *b,
            (
                DefaultProfileDocId::Server { user_id: a, server_id: s },
                DefaultProfileDocId::Server { user_id: b, server_id: t },
            ) => *a == *b && *s == *t,
            (
                DefaultProfileDocId::Channel { user_id: a, channel_id: s },
                DefaultProfileDocId::Channel { user_id: b, channel_id: t },
            ) => *a == *b && *s == *t,
            _ => false,
        }
    }
}

struct UserProfiles {
    user_id: String,
    profiles: Vec<Profile>,
}

struct DefaultEntry {
    id: DefaultProfileDocId,
    name: String,
}

/// The in-memory mirror of all profiles, grouped by user and kept sorted by
/// name, and of all default assignments.
pub struct ProfileStore {
    users: Vec<UserProfiles>,
    defaults: Vec<DefaultEntry>,
}

pub open spec fn opt_view(o: Option<&str>) -> Option<Seq<char>> {
    match o {
        Some(s) => Some(s@),
        None => None,
    }
}

/// A new profile would take the user past the limit.
pub open spec fn capacity_reached(s: Seq<Profile>, name: Seq<char>) -> bool {
    lookup(s, name) is None && s.len() >= MAX_PROFILES
}

/// `after` is `before` with `p` written under `user`.
pub open spec fn saved(before: ProfileStore, after: ProfileStore, user: Seq<char>, p: Profile) -> bool {
    &&& upserted(before.profiles_of(user), p, after.profiles_of(user))
    &&& forall|u: Seq<char>| u != user ==> after.profiles_of(u) == before.profiles_of(u)
    &&& forall|k: DefaultKey| after.default_of(k) == before.default_of(k)
}

/// `after` is `before` without the profile `name` of `user`.
pub open spec fn deleted(before: ProfileStore, after: ProfileStore, user: Seq<char>, name: Seq<char>) -> bool {
    &&& removed(before.profiles_of(user), name, after.profiles_of(user))
    &&& forall|u: Seq<char>| u != user ==> after.profiles_of(u) == before.profiles_of(u)
    &&& forall|k: DefaultKey| after.default_of(k) == before.default_of(k)
}

/// `after` is `before` with the default assignment of `key` set to `name`
/// (cleared where `name` is `None`).
pub open spec fn default_set(
    before: ProfileStore,
    after: ProfileStore,
    key: DefaultKey,
    name: Option<Seq<char>>,
) -> bool {
    &&& after.default_of(key) == name
    &&& forall|k: DefaultKey| k != key ==> after.default_of(k) == before.default_of(k)
    &&& forall|u: Seq<char>| after.profiles_of(u) == before.profiles_of(u)
}

impl ProfileStore {
    pub closed spec fn wf(&self) -> bool {
        &&& forall|i: int, j: int|
            #![trigger self.users@[i], self.users@[j]]
            0 <= i < j < self.users@.len() ==> self.users@[i].user_id@ != self.users@[j].user_id@
        &&& forall|i: int|
            0 <= i < self.users@.len() ==> sorted_by_name(#[trigger] self.users@[i].profiles@)
        &&& forall|i: int, j: int|
            #![trigger self.defaults@[i], self.defaults@[j]]
            0 <= i < j < self.defaults@.len() ==> self.defaults@[i].id@ != self.defaults@[j].id@
    }

    spec fn user_index(&self, user: Seq<char>) -> int {
        choose|i: int| 0 <= i < self.users@.len() && self.users@[i].user_id@ == user
    }

    /// The profiles of a user, sorted by name.
    pub closed spec fn profiles_of(&self, user: Seq<char>) -> Seq<Profile> {
        if exists|i: int| 0 <= i < self.users@.len() && self.users@[i].user_id@ == user {
            self.users@[self.user_index(user)].profiles@
        } else {
            Seq::empty()
        }
    }

    spec fn default_index(&self, key: DefaultKey) -> int {
        choose|i: int| 0 <= i < self.defaults@.len() && self.defaults@[i].id@ == key
    }

    /// The profile name assigned as default for a key, if any.
    pub closed spec fn default_of(&self, key: DefaultKey) -> Option<Seq<char>> {
        if exists|i: int| 0 <= i < self.defaults@.len() && self.defaults@[i].id@ == key {
            Some(self.defaults@[self.default_index(key)].name@)
        } else {
            None
        }
    }

    /// The profile `name` of `user`, if it exists.
    pub open spec fn profile(&self, user: Seq<char>, name: Seq<char>) -> Option<Profile> {
        lookup(self.profiles_of(user), name)
    }

    /// The profile that an assignment names, resolved against the user's
    /// current profiles; an assignment to a missing profile gives `None`.
    pub open spec fn assigned(&self, user: Seq<char>, key: DefaultKey) -> Option<Option<Profile>> {
        match self.default_of(key) {
            Some(n) => Some(self.profile(user, n)),
            None => None,
        }
    }

    /// The default profile for a message of `user` in `channel`, in `server`
    /// if the channel belongs to one: the channel's assignment first, then the
    /// server's, then the global one. The first scope with an assignment
    /// decides, also where its profile no longer exists.
    pub open spec fn resolve(&self, user: Seq<char>, server: Option<Seq<char>>, channel: Seq<char>) -> Option<Profile> {
        match self.assigned(user, DefaultKey::Channel(user, channel)) {
            Some(r) => r,
            None => match server {
                Some(s) => match self.assigned(user, DefaultKey::Server(user, s)) {
                    Some(r) => r,
                    None => match self.assigned(user, DefaultKey::Global(user)) {
                        Some(r) => r,
                        None => None,
                    },
                },
                None => match self.assigned(user, DefaultKey::Global(user)) {
                    Some(r) => r,
                    None => None,
                },
            },
        }
    }

    proof fn lemma_user_at(&self, i: int)
        requires
            self.wf(),
            0 <= i < self.users@.len(),
        ensures
            self.profiles_of(self.users@[i].user_id@) == self.users@[i].profiles@,
    {
        let user = self.users@[i].user_id@;
        assert(exists|k: int| 0 <= k < self.users@.len() && self.users@[k].user_id@ == user);
        let k = self.user_index(user);
        if k < i {
            assert(self.users@[k].user_id@ != self.users@[i].user_id@);
        } else if k > i {
            assert(self.users@[i].user_id@ != self.users@[k].user_id@);
        }
    }

    proof fn lemma_default_at(&self, i: int)
        requires
            self.wf(),
            0 <= i < self.defaults@.len(),
        ensures
            self.default_of(self.defaults@[i].id@) == Some(self.defaults@[i].name@),
    {
        let key = self.defaults@[i].id@;
        assert(exists|k: int| 0 <= k < self.defaults@.len() && self.defaults@[k].id@ == key);
        let k = self.default_index(key);
        if k < i {
            assert(self.defaults@[k].id@ != self.defaults@[i].id@);
        } else if k > i {
            assert(self.defaults@[i].id@ != self.defaults@[k].id@);
        }
    }

    /// Every user's profiles are sorted by name.
    pub proof fn lemma_profiles_sorted(&self, user: Seq<char>)
        requires
            self.wf(),
        ensures
            sorted_by_name(self.profiles_of(user)),
    {
        if exists|i: int| 0 <= i < self.users@.len() && self.users@[i].user_id@ == user {
            let i = self.user_index(user);
            assert(sorted_by_name(self.users@[i].profiles@));
        }
    }

    /// An empty store.
    pub fn new() -> (r: Self)
        ensures
            r.wf(),
            forall|u: Seq<char>| r.profiles_of(u) == Seq::<Profile>::empty(),
            forall|k: DefaultKey| r.default_of(k) is None,
    {
        ProfileStore { users: Vec::new(), defaults: Vec::new() }
    }

    fn find_user(&self, user: &str) -> (r: Option<usize>)
        ensures
            match r {
                Some(i) => i < self.users@.len() && self.users@[i as int].user_id@ == user@,
                None => forall|i: int| 0 <= i < self.users@.len() ==> (#[trigger] self.users@[i]).user_id@ != user@,
            },
    {
        let u = user.to_owned();
        let mut i: usize = 0;
        while i < self.users.len()
            invariant
                i <= self.users@.len(),
                u@ == user@,
                forall|j: int| 0 <= j < i ==> (#[trigger] self.users@[j]).user_id@ != user@,
            decreases self.users@.len() - i,
        {
            if self.users[i].user_id == u {
                return Some(i);
            }
            i = i + 1;
        }
        None
    }

    fn find_default(&self, id: &DefaultProfileDocId) -> (r: Option<usize>)
        ensures
            match r {
                Some(i) => i < self.defaults@.len() && self.defaults@[i as int].id@ == id@,
                None => forall|i: int| 0 <= i < self.defaults@.len() ==> (#[trigger] self.defaults@[i]).id@ != id@,
            },
    {
        let mut i: usize = 0;
        while i < self.defaults.len()
            invariant
                i <= self.defaults@.len(),
                forall|j: int| 0 <= j < i ==> (#[trigger] self.defaults@[j]).id@ != id@,
            decreases self.defaults@.len() - i,
        {
            if self.defaults[i].id.same_key(id) {
                return Some(i);
            }
            i = i + 1;
        }
        None
    }
}

impl ProfileStore {
    /// The profile `name` of `user`, if it exists.
    pub fn get_profile(&self, user_id: &str, profile_name: &str) -> (r: Option<Profile>)
        requires
            self.wf(),
        ensures
            r == self.profile(user_id@, profile_name@),
    {
        match self.find_user(user_id) {
            None => None,
            Some(i) => {
                proof {
                    self.lemma_user_at(i as int);
                }
                let name = profile_name.to_owned();
                let list = &self.users[i].profiles;
                let (pos, found) = find_position(list, &name);
                if found {
                    proof {
                        lemma_lookup_at(list@, pos as int);
                    }
                    Some(list[pos].clone())
                } else {
                    None
                }
            },
        }
    }

    /// The profiles of `user`, sorted by name; empty for an unknown user.
    pub fn get_profiles(&self, user_id: &str) -> (r: Vec<Profile>)
        requires
            self.wf(),
        ensures
            r@ == self.profiles_of(user_id@),
            sorted_by_name(r@),
    {
        proof {
            self.lemma_profiles_sorted(user_id@);
        }
        match self.find_user(user_id) {
            None => Vec::new(),
            Some(i) => {
                proof {
                    self.lemma_user_at(i as int);
                }
                let list = &self.users[i].profiles;
                let mut out: Vec<Profile> = Vec::new();
                let mut k: usize = 0;
                while k < list.len()
                    invariant
                        k <= list@.len(),
                        out@ == list@.take(k as int),
                    decreases list@.len() - k,
                {
                    out.push(list[k].clone());
                    k = k + 1;
                    assert(out@ =~= list@.take(k as int));
                }
                assert(list@.take(list@.len() as int) =~= list@);
                out
            },
        }
    }

    /// Writes `profile` under `user_id` with no check: the way records read
    /// back from storage enter the mirror.
    pub fn restore_profile(&mut self, user_id: &str, profile: Profile)
        requires
            old(self).wf(),
        ensures
            final(self).wf(),
            saved(*old(self), *final(self), user_id@, profile),
    {
        let ghost before = *self;
        match self.find_user(user_id) {
            Some(i) => {
                proof {
                    before.lemma_user_at(i as int);
                }
                let mut entry = self.users.remove(i);
                upsert_sorted(&mut entry.profiles, profile);
                self.users.insert(i, entry);
                proof {
                    assert(self.users@ =~= before.users@.update(i as int, entry));
                    assert(self.wf());
                    self.lemma_user_at(i as int);
                    assert forall|u: Seq<char>| u != user_id@ implies self.profiles_of(u) == before.profiles_of(u) by {
                        if exists|j: int| 0 <= j < before.users@.len() && before.users@[j].user_id@ == u {
                            let j = choose|j: int| 0 <= j < before.users@.len() && before.users@[j].user_id@ == u;
                            before.lemma_user_at(j);
                            self.lemma_user_at(j);
                        } else {
                            assert(!exists|j: int| 0 <= j < self.users@.len() && self.users@[j].user_id@ == u) by {
                                if exists|j: int| 0 <= j < self.users@.len() && self.users@[j].user_id@ == u {
                                    let j = choose|j: int| 0 <= j < self.users@.len() && self.users@[j].user_id@ == u;
                                    assert(before.users@[j].user_id@ == u);
                                }
                            }
                        }
                    }
                    assert(forall|k: DefaultKey| self.default_of(k) == before.default_of(k));
                }
            },
            None => {
                let mut list: Vec<Profile> = Vec::new();
                list.push(profile);
                self.users.push(UserProfiles { user_id: user_id.to_owned(), profiles: list });
                proof {
                    let n = before.users@.len() as int;
                    assert(self.users@ =~= before.users@.push(self.users@[n]));
                    assert(self.wf());
                    self.lemma_user_at(n);
                    assert(before.profiles_of(user_id@) == Seq::<Profile>::empty());
                    assert forall|q: Profile| #[trigger] list@.contains(q) <==> ((before.profiles_of(user_id@).contains(q) && q.name@ != profile.name@) || q == profile) by {
                        if q == profile {
                            assert(list@[0] == q);
                        }
                    }
                    assert forall|u: Seq<char>| u != user_id@ implies self.profiles_of(u) == before.profiles_of(u) by {
                        if exists|j: int| 0 <= j < before.users@.len() && before.users@[j].user_id@ == u {
                            let j = choose|j: int| 0 <= j < before.users@.len() && before.users@[j].user_id@ == u;
                            before.lemma_user_at(j);
                            self.lemma_user_at(j);
                        } else {
                            assert(!exists|j: int| 0 <= j < self.users@.len() && self.users@[j].user_id@ == u) by {
                                if exists|j: int| 0 <= j < self.users@.len() && self.users@[j].user_id@ == u {
                                    let j = choose|j: int| 0 <= j < self.users@.len() && self.users@[j].user_id@ == u;
                                    if j < n {
                                        assert(before.users@[j].user_id@ == u);
                                    }
                                }
                            }
                        }
                    }
                    assert(forall|k: DefaultKey| self.default_of(k) == before.default_of(k));
                }
            },
        }
    }

    /// How many profiles `user` holds, and whether one of them is `name`.
    fn census(&self, user_id: &str, name: &String) -> (r: (usize, bool))
        requires
            self.wf(),
        ensures
            r.0 == self.profiles_of(user_id@).len(),
            r.1 == (self.profile(user_id@, name@) is Some),
    {
        match self.find_user(user_id) {
            None => (0, false),
            Some(i) => {
                proof {
                    self.lemma_user_at(i as int);
                }
                let list = &self.users[i].profiles;
                let (pos, found) = find_position(list, name);
                if found {
                    proof {
                        lemma_lookup_at(list@, pos as int);
                    }
                }
                (list.len(), found)
            },
        }
    }

    /// Checks that `profile` may be written under `user_id`: its attributes
    /// keep every rule, and a new name stays within the user's limit.
    pub fn check_save(&self, user_id: &str, profile: &Profile, checks: PatternChecks) -> (r: Result<(), Error>)
        requires
            self.wf(),
        ensures
            match r {
                Ok(()) => profile_valid(*profile, checks) && !capacity_reached(self.profiles_of(user_id@), profile.name@),
                Err(Error::Validate(v)) => !profile_valid(*profile, checks) && v@ == profile_errors(*profile, checks),
                Err(Error::UserMaxProfiles(n)) => profile_valid(*profile, checks) && capacity_reached(self.profiles_of(user_id@), profile.name@) && n == MAX_PROFILES,
                Err(_) => false,
            },
    {
        let errors = profile_violations(profile, checks);
        if errors.len() > 0 {
            return Err(Error::Validate(errors));
        }
        let (count, present) = self.census(user_id, &profile.name);
        if !present && count >= MAX_PROFILES {
            return Err(Error::UserMaxProfiles(MAX_PROFILES));
        }
        Ok(())
    }

    /// Validates `profile` and writes it under `user_id`, replacing the
    /// profile of the same name. A new name is refused once the user holds
    /// the most profiles allowed; the store is unchanged on every error.
    pub fn save_profile(&mut self, user_id: &str, profile: Profile, checks: PatternChecks) -> (r: Result<(), Error>)
        requires
            old(self).wf(),
        ensures
            final(self).wf(),
            match r {
                Ok(()) => profile_valid(profile, checks)
                    && !capacity_reached(old(self).profiles_of(user_id@), profile.name@)
                    && saved(*old(self), *final(self), user_id@, profile),
                Err(Error::Validate(v)) => !profile_valid(profile, checks)
                    && v@ == profile_errors(profile, checks)
                    && *final(self) == *old(self),
                Err(Error::UserMaxProfiles(n)) => profile_valid(profile, checks)
                    && capacity_reached(old(self).profiles_of(user_id@), profile.name@)
                    && n == MAX_PROFILES
                    && *final(self) == *old(self),
                Err(_) => false,
            },
    {
        match self.check_save(user_id, &profile, checks) {
            Ok(()) => {
                self.restore_profile(user_id, profile);
                Ok(())
            },
            Err(e) => Err(e),
        }
    }

    /// Removes the profile `name` of `user_id` and returns it, or `None`
    /// where there was none; a user left with no profiles is dropped.
    pub fn delete_profile(&mut self, user_id: &str, profile_name: &str) -> (r: Option<Profile>)
        requires
            old(self).wf(),
        ensures
            final(self).wf(),
            r == old(self).profile(user_id@, profile_name@),
            deleted(*old(self), *final(self), user_id@, profile_name@),
    {
        let ghost before = *self;
        match self.find_user(user_id) {
            None => {
                proof {
                    assert(before.profiles_of(user_id@) == Seq::<Profile>::empty());
                }
                None
            },
            Some(i) => {
                proof {
                    before.lemma_user_at(i as int);
                }
                let name = profile_name.to_owned();
                let mut entry = self.users.remove(i);
                let gone = remove_named(&mut entry.profiles, &name);
                if entry.profiles.len() > 0 {
                    self.users.insert(i, entry);
                    proof {
                        assert(self.users@ =~= before.users@.update(i as int, entry));
                        assert(self.wf());
                        self.lemma_user_at(i as int);
                        assert forall|u: Seq<char>| u != user_id@ implies self.profiles_of(u) == before.profiles_of(u) by {
                            if exists|j: int| 0 <= j < before.users@.len() && before.users@[j].user_id@ == u {
                                let j = choose|j: int| 0 <= j < before.users@.len() && before.users@[j].user_id@ == u;
                                before.lemma_user_at(j);
                                self.lemma_user_at(j);
                            } else {
                                assert(!exists|j: int| 0 <= j < self.users@.len() && self.users@[j].user_id@ == u) by {
                                    if exists|j: int| 0 <= j < self.users@.len() && self.users@[j].user_id@ == u {
                                        let j = choose|j: int| 0 <= j < self.users@.len() && self.users@[j].user_id@ == u;
                                        assert(before.users@[j].user_id@ == u);
                                    }
                                }
                            }
                        }
                        assert(forall|k: DefaultKey| self.default_of(k) == before.default_of(k));
                    }
                } else {
                    proof {
                        assert(self.users@ =~= before.users@.remove(i as int));
                        assert(self.wf());
                        assert(!exists|j: int| 0 <= j < self.users@.len() && self.users@[j].user_id@ == user_id@) by {
                            if exists|j: int| 0 <= j < self.users@.len() && self.users@[j].user_id@ == user_id@ {
                                let j = choose|j: int| 0 <= j < self.users@.len() && self.users@[j].user_id@ == user_id@;
                                if j < i {
                                    assert(before.users@[j].user_id@ == user_id@);
                                } else {
                                    assert(before.users@[j + 1].user_id@ == user_id@);
                                }
                            }
                        }
                        assert(entry.profiles@ =~= Seq::<Profile>::empty());
                        assert(self.profiles_of(user_id@) == entry.profiles@);
                        assert forall|u: Seq<char>| u != user_id@ implies self.profiles_of(u) == before.profiles_of(u) by {
                            if exists|j: int| 0 <= j < before.users@.len() && before.users@[j].user_id@ == u {
                                let j = choose|j: int| 0 <= j < before.users@.len() && before.users@[j].user_id@ == u;
                                before.lemma_user_at(j);
                                assert(j != i);
                                if j < i {
                                    self.lemma_user_at(j);
                                } else {
                                    assert(self.users@[j - 1] == before.users@[j]);
                                    self.lemma_user_at(j - 1);
                                }
                            } else {
                                assert(!exists|j: int| 0 <= j < self.users@.len() && self.users@[j].user_id@ == u) by {
                                    if exists|j: int| 0 <= j < self.users@.len() && self.users@[j].user_id@ == u {
                                        let j = choose|j: int| 0 <= j < self.users@.len() && self.users@[j].user_id@ == u;
                                        if j < i {
                                            assert(before.users@[j].user_id@ == u);
                                        } else {
                                            assert(before.users@[j + 1].user_id@ == u);
                                        }
                                    }
                                }
                            }
                        }
                        assert(forall|k: DefaultKey| self.default_of(k) == before.default_of(k));
                    }
                }
                gone
            },
        }
    }
}


impl ProfileStore {
    /// Sets the default assignment of `id` to `name` with no check: the way
    /// records read back from storage enter the mirror.
    pub fn restore_default(&mut self, id: DefaultProfileDocId, name: String)
        requires
            old(self).wf(),
        ensures
            final(self).wf(),
            default_set(*old(self), *final(self), id@, Some(name@)),
    {
        let ghost before = *self;
        let ghost key = id@;
        let ghost nm = name@;
        match self.find_default(&id) {
            Some(i) => {
                self.defaults.set(i, DefaultEntry { id, name });
                proof {
                    assert(self.wf());
                    self.lemma_default_at(i as int);
                    assert forall|k: DefaultKey| k != key implies self.default_of(k) == before.default_of(k) by {
                        if exists|j: int| 0 <= j < before.defaults@.len() && before.defaults@[j].id@ == k {
                            let j = choose|j: int| 0 <= j < before.defaults@.len() && before.defaults@[j].id@ == k;
                            before.lemma_default_at(j);
                            self.lemma_default_at(j);
                        } else {
                            assert(!exists|j: int| 0 <= j < self.defaults@.len() && self.defaults@[j].id@ == k) by {
                                if exists|j: int| 0 <= j < self.defaults@.len() && self.defaults@[j].id@ == k {
                                    let j = choose|j: int| 0 <= j < self.defaults@.len() && self.defaults@[j].id@ == k;
                                    assert(before.defaults@[j].id@ == k);
                                }
                            }
                        }
                    }
                }
            },
            None => {
                self.defaults.push(DefaultEntry { id, name });
                proof {
                    let n = before.defaults@.len() as int;
                    assert(self.wf());
                    self.lemma_default_at(n);
                    assert forall|k: DefaultKey| k != key implies self.default_of(k) == before.default_of(k) by {
                        if exists|j: int| 0 <= j < before.defaults@.len() && before.defaults@[j].id@ == k {
                            let j = choose|j: int| 0 <= j < before.defaults@.len() && before.defaults@[j].id@ == k;
                            before.lemma_default_at(j);
                            self.lemma_default_at(j);
                        } else {
                            assert(!exists|j: int| 0 <= j < self.defaults@.len() && self.defaults@[j].id@ == k) by {
                                if exists|j: int| 0 <= j < self.defaults@.len() && self.defaults@[j].id@ == k {
                                    let j = choose|j: int| 0 <= j < self.defaults@.len() && self.defaults@[j].id@ == k;
                                    if j < n {
                                        assert(before.defaults@[j].id@ == k);
                                    }
                                }
                            }
                        }
                    }
                }
            },
        }
        proof {
            assert(self.users == before.users);
        }
    }

    fn clear_default(&mut self, id: &DefaultProfileDocId)
        requires
            old(self).wf(),
        ensures
            final(self).wf(),
            default_set(*old(self), *final(self), id@, None),
    {
        let ghost before = *self;
        let ghost key = id@;
        match self.find_default(id) {
            Some(i) => {
                self.defaults.remove(i);
                proof {
                    assert(self.wf());
                    assert(!exists|j: int| 0 <= j < self.defaults@.len() && self.defaults@[j].id@ == key) by {
                        if exists|j: int| 0 <= j < self.defaults@.len() && self.defaults@[j].id@ == key {
                            let j = choose|j: int| 0 <= j < self.defaults@.len() && self.defaults@[j].id@ == key;
                            if j < i {
                                assert(before.defaults@[j].id@ == key);
                            } else {
                                assert(before.defaults@[j + 1].id@ == key);
                            }
                        }
                    }
                    assert forall|k: DefaultKey| k != key implies self.default_of(k) == before.default_of(k) by {
                        if exists|j: int| 0 <= j < before.defaults@.len() && before.defaults@[j].id@ == k {
                            let j = choose|j: int| 0 <= j < before.defaults@.len() && before.defaults@[j].id@ == k;
                            before.lemma_default_at(j);
                            if j < i {
                                self.lemma_default_at(j);
                            } else {
                                assert(self.defaults@[j - 1] == before.defaults@[j]);
                                self.lemma_default_at(j - 1);
                            }
                        } else {
                            assert(!exists|j: int| 0 <= j < self.defaults@.len() && self.defaults@[j].id@ == k) by {
                                if exists|j: int| 0 <= j < self.defaults@.len() && self.defaults@[j].id@ == k {
                                    let j = choose|j: int| 0 <= j < self.defaults@.len() && self.defaults@[j].id@ == k;
                                    if j < i {
                                        assert(before.defaults@[j].id@ == k);
                                    } else {
                                        assert(before.defaults@[j + 1].id@ == k);
                                    }
                                }
                            }
                        }
                    }
                }
            },
            None => {},
        }
        proof {
            assert(self.users == before.users);
        }
    }

    /// Sets the default assignment of `id` to the profile `name`, which must
    /// exist for the key's user; with no name, clears the assignment, which
    /// succeeds also where there was none.
    pub fn set_default(&mut self, id: DefaultProfileDocId, name: Option<&str>) -> (r: Result<(), Error>)
        requires
            old(self).wf(),
        ensures
            final(self).wf(),
            match name {
                None => r is Ok && default_set(*old(self), *final(self), id@, None),
                Some(n) => match r {
                    Ok(()) => old(self).profile(key_owner(id@), n@) is Some
                        && default_set(*old(self), *final(self), id@, Some(n@)),
                    Err(Error::ProfileNotFound) => old(self).profile(key_owner(id@), n@) is None
                        && *final(self) == *old(self),
                    Err(_) => false,
                },
            },
    {
        match name {
            None => {
                self.clear_default(&id);
                Ok(())
            },
            Some(n) => {
                let exists = self.get_profile(id.user_id().as_str(), n).is_some();
                if !exists {
                    return Err(Error::ProfileNotFound);
                }
                self.restore_default(id, n.to_owned());
                Ok(())
            },
        }
    }

    /// The profile name assigned as default for `id`, if any.
    pub fn default_name(&self, id: &DefaultProfileDocId) -> (r: Option<String>)
        requires
            self.wf(),
        ensures
            match self.default_of(id@) {
                Some(n) => r matches Some(x) && x@ == n,
                None => r is None,
            },
    {
        match self.find_default(id) {
            Some(i) => {
                proof {
                    self.lemma_default_at(i as int);
                }
                Some(self.defaults[i].name.clone())
            },
            None => None,
        }
    }

    /// The profile that one assignment names, if it is set.
    fn assigned_profile(&self, user_id: &str, id: &DefaultProfileDocId) -> (r: Option<Option<Profile>>)
        requires
            self.wf(),
        ensures
            r == self.assigned(user_id@, id@),
    {
        match self.find_default(id) {
            Some(i) => {
                proof {
                    self.lemma_default_at(i as int);
                }
                Some(self.get_profile(user_id, self.defaults[i].name.as_str()))
            },
            None => None,
        }
    }

    /// The default profile of `user_id` for a message in `channel_id`, in the
    /// server `server_id` where the channel belongs to one.
    pub fn get_default(&self, user_id: &str, server_id: Option<&str>, channel_id: &str) -> (r: Option<Profile>)
        requires
            self.wf(),
        ensures
            r == self.resolve(user_id@, opt_view(server_id), channel_id@),
    {
        let id = DefaultProfileDocId::Channel { user_id: user_id.to_owned(), channel_id: channel_id.to_owned() };
        if let Some(r) = self.assigned_profile(user_id, &id) {
            return r;
        }
        if let Some(server) = server_id {
            let id = DefaultProfileDocId::Server { user_id: user_id.to_owned(), server_id: server.to_owned() };
            if let Some(r) = self.assigned_profile(user_id, &id) {
                return r;
            }
        }
        let id = DefaultProfileDocId::Global { user_id: user_id.to_owned() };
        match self.assigned_profile(user_id, &id) {
            Some(r) => r,
            None => None,
        }
    }
}


/// A write that succeeded is read back exactly: once `p` is saved under
/// `user`, the profile of that user with `p`'s name is `p`.
pub proof fn lemma_read_after_write(before: ProfileStore, after: ProfileStore, user: Seq<char>, p: Profile)
    requires
        after.wf(),
        saved(before, after, user, p),
    ensures
        after.profile(user, p.name@) == Some(p),
{
    after.lemma_profiles_sorted(user);
    assert(after.profiles_of(user).contains(p));
    lemma_lookup_contains(after.profiles_of(user), p);
}

/// After a delete neither lookup nor listing shows a profile of that name;
/// deleting a name the user does not hold reports that nothing was removed
/// and leaves the listing with the same profiles.
pub proof fn lemma_delete_removes(
    before: ProfileStore,
    after: ProfileStore,
    user: Seq<char>,
    name: Seq<char>,
    r: Option<Profile>,
)
    requires
        before.wf(),
        after.wf(),
        r == before.profile(user, name),
        deleted(before, after, user, name),
    ensures
        after.profile(user, name) is None,
        forall|q: Profile| after.profiles_of(user).contains(q) ==> q.name@ != name,
        r is Some ==> r->0.name@ == name && before.profiles_of(user).contains(r->0),
        r is None ==> forall|q: Profile| after.profiles_of(user).contains(q) == before.profiles_of(user).contains(q),
{
    let t = after.profiles_of(user);
    let s = before.profiles_of(user);
    if exists|i: int| 0 <= i < t.len() && t[i].name@ == name {
        let i = choose|i: int| 0 <= i < t.len() && t[i].name@ == name;
        assert(t.contains(t[i]));
    }
    if r is Some {
        let k = name_index(s, name);
        assert(s.contains(s[k]));
    } else {
        assert forall|q: Profile| t.contains(q) == s.contains(q) by {
            if s.contains(q) {
                let k = choose|k: int| 0 <= k < s.len() && s[k] == q;
                assert(s[k].name@ != name);
            }
        }
    }
}

/// A user never holds more than the most profiles allowed: a write that
/// succeeds leaves the count within the limit, and one to a name the user
/// already holds leaves the count as it was. A new name is refused once the
/// limit is reached, and a name the user holds never is.
pub proof fn lemma_capacity(before: ProfileStore, after: ProfileStore, user: Seq<char>, p: Profile)
    requires
        before.wf(),
        before.profiles_of(user).len() <= MAX_PROFILES,
        saved(before, after, user, p),
        !capacity_reached(before.profiles_of(user), p.name@),
    ensures
        after.profiles_of(user).len() <= MAX_PROFILES,
        before.profile(user, p.name@) is Some ==> after.profiles_of(user).len() == before.profiles_of(user).len(),
        before.profile(user, p.name@) is None && before.profiles_of(user).len() >= MAX_PROFILES
            ==> capacity_reached(before.profiles_of(user), p.name@),
        before.profile(user, p.name@) is Some ==> !capacity_reached(before.profiles_of(user), p.name@),
{
    before.lemma_profiles_sorted(user);
    lemma_upserted_len(before.profiles_of(user), p, after.profiles_of(user));
}

/// Defaults resolve from the most specific scope down: with channel, server
/// and global assignments set, the channel's wins; once it is cleared the
/// server's; once that is cleared the global one; once all are cleared, none.
pub proof fn lemma_default_precedence(
    s0: ProfileStore,
    s1: ProfileStore,
    s2: ProfileStore,
    s3: ProfileStore,
    user: Seq<char>,
    server: Seq<char>,
    channel: Seq<char>,
    c: Seq<char>,
    v: Seq<char>,
    g: Seq<char>,
)
    requires
        s0.default_of(DefaultKey::Channel(user, channel)) == Some(c),
        s0.default_of(DefaultKey::Server(user, server)) == Some(v),
        s0.default_of(DefaultKey::Global(user)) == Some(g),
        default_set(s0, s1, DefaultKey::Channel(user, channel), None),
        default_set(s1, s2, DefaultKey::Server(user, server), None),
        default_set(s2, s3, DefaultKey::Global(user), None),
    ensures
        s0.resolve(user, Some(server), channel) == s0.profile(user, c),
        s1.resolve(user, Some(server), channel) == s0.profile(user, v),
        s2.resolve(user, Some(server), channel) == s0.profile(user, g),
        s3.resolve(user, Some(server), channel) is None,
{
    assert(s1.profiles_of(user) == s0.profiles_of(user));
    assert(s2.profiles_of(user) == s0.profiles_of(user));
    assert(DefaultKey::Server(user, server) != DefaultKey::Channel(user, channel));
    assert(DefaultKey::Global(user) != DefaultKey::Channel(user, channel));
    assert(DefaultKey::Global(user) != DefaultKey::Server(user, server));
    assert(s1.default_of(DefaultKey::Server(user, server)) == Some(v));
    assert(s1.default_of(DefaultKey::Global(user)) == Some(g));
    assert(s2.default_of(DefaultKey::Global(user)) == Some(g));
    assert(s2.default_of(DefaultKey::Channel(user, channel)) is None);
    assert(s3.default_of(DefaultKey::Channel(user, channel)) is None);
    assert(s3.default_of(DefaultKey::Server(user, server)) is None);
}

/// `p` stands in the sorted list under its name.
proof fn lemma_lookup_some(s: Seq<Profile>, n: Seq<char>)
    requires
        sorted_by_name(s),
    ensures
        lookup(s, n) is Some <==> exists|q: Profile| s.contains(q) && q.name@ == n,
        lookup(s, n) is Some ==> s.contains(lookup(s, n)->0) && lookup(s, n)->0.name@ == n,
{
    if exists|q: Profile| s.contains(q) && q.name@ == n {
        let q = choose|q: Profile| s.contains(q) && q.name@ == n;
        let k = choose|k: int| 0 <= k < s.len() && s[k] == q;
        assert(s[k].name@ == n);
    }
    if lookup(s, n) is Some {
        let k = name_index(s, n);
        assert(s.contains(s[k]));
    }
}

/// A write leaves the profiles of other names as they were.
proof fn lemma_saved_keeps_others(before: ProfileStore, after: ProfileStore, user: Seq<char>, p: Profile, n: Seq<char>)
    requires
        before.wf(),
        after.wf(),
        saved(before, after, user, p),
        n != p.name@,
    ensures
        after.profile(user, n) == before.profile(user, n),
{
    let s = before.profiles_of(user);
    let t = after.profiles_of(user);
    before.lemma_profiles_sorted(user);
    after.lemma_profiles_sorted(user);
    lemma_lookup_some(s, n);
    lemma_lookup_some(t, n);
    if lookup(s, n) is Some {
        let q = lookup(s, n)->0;
        assert(t.contains(q));
        lemma_lookup_contains(t, q);
    } else if lookup(t, n) is Some {
        let q = lookup(t, n)->0;
        assert(s.contains(q));
    }
}

/// Only the profiles of `user` may differ between the two stores.
pub open spec fn untouched_beyond(before: ProfileStore, after: ProfileStore, user: Seq<char>) -> bool {
    &&& forall|u: Seq<char>| u != user ==> after.profiles_of(u) == before.profiles_of(u)
    &&& forall|k: DefaultKey| after.default_of(k) == before.default_of(k)
}

/// No later profile of the first `upto` of a batch has the name of the
/// profile at `i`.
pub open spec fn last_of_name(profiles: Seq<Profile>, i: int, upto: int) -> bool {
    forall|j: int| i < j < upto ==> (#[trigger] profiles[j]).name@ != profiles[i].name@
}

/// Some profile among the first `k` of the batch has the name `n`.
pub open spec fn named_in(batch: Seq<Profile>, k: int, n: Seq<char>) -> bool {
    exists|j: int| 0 <= j < k && (#[trigger] batch[j]).name@ == n
}

/// `t` is the list `s` after the first `k` profiles of the batch were
/// written in order: the profiles of `s` whose names the batch does not
/// touch, and for each name of the batch its last profile.
pub open spec fn imported(s: Seq<Profile>, batch: Seq<Profile>, k: int, t: Seq<Profile>) -> bool {
    forall|q: Profile| #[trigger] t.contains(q) <==> (
        (s.contains(q) && !named_in(batch, k, q.name@))
        || exists|j: int| 0 <= j < k && last_of_name(batch, j, k) && q == #[trigger] batch[j]
    )
}

proof fn lemma_imported_step(s: Seq<Profile>, batch: Seq<Profile>, k: int, t: Seq<Profile>, u: Seq<Profile>)
    requires
        0 <= k < batch.len(),
        imported(s, batch, k, t),
        upserted(t, batch[k], u),
    ensures
        imported(s, batch, k + 1, u),
{
    let p = batch[k];
    assert forall|q: Profile| #[trigger] u.contains(q) <==> (
        (s.contains(q) && !named_in(batch, k + 1, q.name@))
        || exists|j: int| 0 <= j < k + 1 && last_of_name(batch, j, k + 1) && q == #[trigger] batch[j]
    ) by {
        if u.contains(q) {
            if q == p {
                assert(last_of_name(batch, k, k + 1));
            } else {
                assert(t.contains(q) && q.name@ != p.name@);
                if s.contains(q) && !named_in(batch, k, q.name@) {
                    assert(!named_in(batch, k + 1, q.name@)) by {
                        if named_in(batch, k + 1, q.name@) {
                            let j = choose|j: int| 0 <= j < k + 1 && (#[trigger] batch[j]).name@ == q.name@;
                            assert(j < k);
                        }
                    }
                } else {
                    let j = choose|j: int| 0 <= j < k && last_of_name(batch, j, k) && q == #[trigger] batch[j];
                    assert(last_of_name(batch, j, k + 1));
                }
            }
        }
        if s.contains(q) && !named_in(batch, k + 1, q.name@) {
            assert(!named_in(batch, k, q.name@)) by {
                if named_in(batch, k, q.name@) {
                    let j = choose|j: int| 0 <= j < k && (#[trigger] batch[j]).name@ == q.name@;
                    assert(0 <= j < k + 1 && batch[j].name@ == q.name@);
                }
            }
            assert(batch[k].name@ != q.name@);
            assert(t.contains(q));
        }
        if exists|j: int| 0 <= j < k + 1 && last_of_name(batch, j, k + 1) && q == #[trigger] batch[j] {
            let j = choose|j: int| 0 <= j < k + 1 && last_of_name(batch, j, k + 1) && q == #[trigger] batch[j];
            if j < k {
                assert(last_of_name(batch, j, k));
                assert(batch[k].name@ != batch[j].name@);
                assert(t.contains(q));
            }
        }
    }
}

impl ProfileStore {
    /// Imports a batch of profiles for `user_id`, each with the outcome of
    /// its pattern checks. The whole batch is validated first: if any
    /// profile breaks a rule, the rules broken by the first such profile are
    /// returned and nothing is written. Otherwise the profiles are saved in
    /// order, a later profile replacing an earlier one of the same name,
    /// until one would take the user past the most profiles allowed: that
    /// one and those after it are not saved. A batch that cannot reach the
    /// limit is always saved whole.
    pub fn import_profiles(&mut self, user_id: &str, profiles: Vec<Profile>, checks: Vec<PatternChecks>) -> (r: Result<usize, Error>)
        requires
            old(self).wf(),
            checks@.len() == profiles@.len(),
        ensures
            final(self).wf(),
            batch_valid(profiles@, checks@) && old(self).profiles_of(user_id@).len() + profiles@.len() <= MAX_PROFILES
                ==> r is Ok,
            match r {
                Err(Error::Validate(v)) => exists|i: int|
                    0 <= i < profiles@.len() && !profile_valid(#[trigger] profiles@[i], checks@[i])
                        && batch_valid(profiles@.take(i), checks@.take(i))
                        && v@ == profile_errors(profiles@[i], checks@[i])
                        && *final(self) == *old(self),
                Ok(n) => n == profiles@.len() && batch_valid(profiles@, checks@)
                    && imported(old(self).profiles_of(user_id@), profiles@, profiles@.len() as int, final(self).profiles_of(user_id@))
                    && (forall|i: int| 0 <= i < profiles@.len() && last_of_name(profiles@, i, profiles@.len() as int)
                        ==> final(self).profile(user_id@, (#[trigger] profiles@[i]).name@) == Some(profiles@[i]))
                    && untouched_beyond(*old(self), *final(self), user_id@),
                Err(Error::UserMaxProfiles(n)) => n == MAX_PROFILES && batch_valid(profiles@, checks@)
                    && (exists|k: int| 0 <= k < profiles@.len()
                        && capacity_reached(final(self).profiles_of(user_id@), (#[trigger] profiles@[k]).name@)
                        && imported(old(self).profiles_of(user_id@), profiles@, k, final(self).profiles_of(user_id@)))
                    && untouched_beyond(*old(self), *final(self), user_id@),
                Err(_) => false,
            },
    {
        match check_batch(&profiles, &checks) {
            Err(errors) => {
                return Err(Error::Validate(errors));
            },
            Ok(()) => {},
        }
        let ghost all = profiles@;
        let ghost start = *self;
        let n = profiles.len();
        let mut k: usize = 0;
        proof {
            assert forall|q: Profile| #[trigger] self.profiles_of(user_id@).contains(q) <==> (
                (start.profiles_of(user_id@).contains(q) && !named_in(all, 0, q.name@))
                || exists|j: int| 0 <= j < 0 && last_of_name(all, j, 0) && q == #[trigger] all[j]
            ) by {}
        }
        while k < n
            invariant
                k <= n,
                n == all.len(),
                self.wf(),
                start.wf(),
                batch_valid(all, checks@),
                all == profiles@,
                checks@.len() == n,
                forall|j: int| 0 <= j < k && last_of_name(all, j, k as int)
                    ==> self.profile(user_id@, (#[trigger] all[j]).name@) == Some(all[j]),
                imported(start.profiles_of(user_id@), all, k as int, self.profiles_of(user_id@)),
                self.profiles_of(user_id@).len() <= start.profiles_of(user_id@).len() + k,
                untouched_beyond(start, *self, user_id@),
                start == *old(self),
            decreases n - k,
        {
            let ghost before = *self;
            let p = profiles[k].clone();
            let c = checks[k];
            assert(profile_valid(p, c));
            match self.save_profile(user_id, p, c) {
                Ok(()) => {},
                Err(e) => {
                    assert(capacity_reached(self.profiles_of(user_id@), all[k as int].name@));
                    return Err(e);
                },
            }
            proof {
                assert(untouched_beyond(start, *self, user_id@));
                lemma_read_after_write(before, *self, user_id@, all[k as int]);
                before.lemma_profiles_sorted(user_id@);
                lemma_upserted_len(before.profiles_of(user_id@), all[k as int], self.profiles_of(user_id@));
                lemma_imported_step(start.profiles_of(user_id@), all, k as int, before.profiles_of(user_id@), self.profiles_of(user_id@));
                assert forall|j: int| 0 <= j < k + 1 && last_of_name(all, j, k + 1)
                    implies self.profile(user_id@, (#[trigger] all[j]).name@) == Some(all[j]) by {
                    if j < k {
                        assert(all[k as int].name@ != all[j].name@);
                        assert(last_of_name(all, j, k as int));
                        lemma_saved_keeps_others(before, *self, user_id@, all[k as int], all[j].name@);
                    }
                }
            }
            k = k + 1;
        }
        Ok(n)
    }
}

} // verus!
