use vstd::prelude::*;
use crate::chars::{chars_of, is_whitespace, is_ws, skip_ws, string_of, trim_start};
use crate::colours::{colour_of, parse_colours, trim, trim_chars, words_of};
use crate::models::{copy_opt, Profile};
use crate::store::DefaultProfileDocId;

verus! {

/// The field of a profile that an edit command sets.
#[derive(Debug, Clone, Copy, PartialEq, Eq, Structural)]
pub enum EditCommand {
    Name,
    DisplayName,
    Avatar,
    Colour,
}

/// The scope that a default command assigns.
#[derive(Debug, Clone, Copy, PartialEq, Eq, Structural)]
pub enum DefaultScope {
    Global,
    Server,
    Channel,
}

/// What a message addressed to the bot asks for.
#[derive(Debug, Clone, Copy, PartialEq, Eq, Structural)]
pub enum Command {
    Create,
    Edit(EditCommand),
    Delete,
    List,
    Author,
    Default(DefaultScope),
    Help,
}

/// The command that a word names; any other word asks for help.
pub open spec fn command_of(word: Seq<char>) -> Command {
    if word == "create"@ {
        Command::Create
    } else if word == "name"@ || word == "n"@ {
        Command::Edit(EditCommand::Name)
    } else if word == "display_name"@ || word == "display"@ || word == "d"@ {
        Command::Edit(EditCommand::DisplayName)
    } else if word == "avatar"@ || word == "pfp"@ || word == "a"@ {
        Command::Edit(EditCommand::Avatar)
    } else if word == "colour"@ || word == "color"@ || word == "c"@ {
        Command::Edit(EditCommand::Colour)
    } else if word == "delete"@ {
        Command::Delete
    } else if word == "list"@ {
        Command::List
    } else if word == "author"@ {
        Command::Author
    } else if word == "default"@ {
        Command::Default(DefaultScope::Global)
    } else if word == "server_default"@ || word == "sdefault"@ {
        Command::Default(DefaultScope::Server)
    } else if word == "channel_default"@ || word == "cdefault"@ {
        Command::Default(DefaultScope::Channel)
    } else {
        Command::Help
    }
}

fn is_word(w: &String, lit: &str) -> (r: bool)
    ensures
        r == (w@ == lit@),
{
    *w == lit.to_owned()
}

/// The command that a word names.
pub fn parse_command(word: &str) -> (r: Command)
    ensures
        r == command_of(word@),
{
    let w = word.to_owned();
    if is_word(&w, "create") {
        Command::Create
    } else if is_word(&w, "name") || is_word(&w, "n") {
        Command::Edit(EditCommand::Name)
    } else if is_word(&w, "display_name") || is_word(&w, "display") || is_word(&w, "d") {
        Command::Edit(EditCommand::DisplayName)
    } else if is_word(&w, "avatar") || is_word(&w, "pfp") || is_word(&w, "a") {
        Command::Edit(EditCommand::Avatar)
    } else if is_word(&w, "colour") || is_word(&w, "color") || is_word(&w, "c") {
        Command::Edit(EditCommand::Colour)
    } else if is_word(&w, "delete") {
        Command::Delete
    } else if is_word(&w, "list") {
        Command::List
    } else if is_word(&w, "author") {
        Command::Author
    } else if is_word(&w, "default") {
        Command::Default(DefaultScope::Global)
    } else if is_word(&w, "server_default") || is_word(&w, "sdefault") {
        Command::Default(DefaultScope::Server)
    } else if is_word(&w, "channel_default") || is_word(&w, "cdefault") {
        Command::Default(DefaultScope::Channel)
    } else {
        Command::Help
    }
}

/// The first white-space character of a text, where it has one.
pub open spec fn first_ws(s: Seq<char>) -> int {
    choose|i: int| 0 <= i < s.len() && is_ws(s[i]) && forall|j: int| 0 <= j < i ==> !is_ws(s[j])
}

pub open spec fn has_ws(s: Seq<char>) -> bool {
    exists|i: int| 0 <= i < s.len() && is_ws(s[i])
}

fn find_ws(cs: &Vec<char>) -> (r: Option<usize>)
    ensures
        match r {
            Some(k) => has_ws(cs@) && k == first_ws(cs@) && k < cs@.len(),
            None => !has_ws(cs@),
        },
{
    let mut i: usize = 0;
    while i < cs.len()
        invariant
            i <= cs@.len(),
            forall|j: int| 0 <= j < i ==> !is_ws(cs@[j]),
        decreases cs@.len() - i,
    {
        if is_whitespace(cs[i]) {
            proof {
                assert(exists|k: int| 0 <= k < cs@.len() && is_ws(cs@[k]) && forall|j: int| 0 <= j < k ==> !is_ws(cs@[j]));
                let k = first_ws(cs@);
                if k < i {
                    assert(!is_ws(cs@[k]));
                } else if k > i {
                    assert(!is_ws(cs@[i as int]));
                }
            }
            return Some(i);
        }
        i = i + 1;
    }
    None
}

/// Splits a text at its first white-space character, as `str::split_once`
/// with `char::is_whitespace` does: the text before it, and the text after.
pub open spec fn split_ws(s: Seq<char>) -> (Seq<char>, Option<Seq<char>>) {
    if has_ws(s) {
        (s.take(first_ws(s)), Some(s.skip(first_ws(s) + 1)))
    } else {
        (s, None)
    }
}

/// Splits the arguments of a command into a profile name and the value
/// after it, if any.
pub fn split_args(args: &str) -> (r: (String, Option<String>))
    ensures
        r.0@ == split_ws(args@).0,
        match split_ws(args@).1 {
            Some(v) => r.1 matches Some(x) && x@ == v,
            None => r.1 is None,
        },
{
    let cs = chars_of(args);
    match find_ws(&cs) {
        Some(k) => {
            let name = string_of(cs.as_slice(), 0, k);
            let value = string_of(cs.as_slice(), k + 1, cs.len());
            assert(name@ =~= args@.take(k as int));
            assert(value@ =~= args@.skip(k + 1));
            (name, Some(value))
        },
        None => {
            let name = string_of(cs.as_slice(), 0, cs.len());
            assert(name@ =~= args@);
            (name, None)
        },
    }
}

/// The command word of a request and what follows it, without leading
/// white space.
pub open spec fn command_split(s: Seq<char>) -> (Seq<char>, Seq<char>) {
    match split_ws(s).1 {
        Some(rest) => (split_ws(s).0, trim_start(rest)),
        None => (s, Seq::empty()),
    }
}

pub fn command_parts(request: &str) -> (r: (String, String))
    ensures
        r.0@ == command_split(request@).0,
        r.1@ == command_split(request@).1,
{
    let cs = chars_of(request);
    match find_ws(&cs) {
        Some(k) => {
            let word = string_of(cs.as_slice(), 0, k);
            let start = skip_ws(cs.as_slice(), k + 1);
            let rest = string_of(cs.as_slice(), start, cs.len());
            assert(word@ =~= request@.take(k as int));
            assert(request@.skip(k + 1) =~= cs@.subrange(k + 1, cs@.len() as int));
            (word, rest)
        },
        None => {
            let word = string_of(cs.as_slice(), 0, cs.len());
            assert(word@ =~= request@);
            (word, String::new())
        },
    }
}

/// The request in a message that starts with the bot's mention: the text
/// after the mention without surrounding white space.
pub open spec fn request_of(content: Seq<char>, mention: Seq<char>) -> Option<Seq<char>> {
    if mention.len() <= content.len() && content.take(mention.len() as int) == mention {
        Some(trim(content.skip(mention.len() as int)))
    } else {
        None
    }
}

pub fn strip_mention(content: &str, mention: &str) -> (r: Option<String>)
    ensures
        match request_of(content@, mention@) {
            Some(q) => r matches Some(x) && x@ == q,
            None => r is None,
        },
{
    let cs = chars_of(content);
    let ms = chars_of(mention);
    if ms.len() > cs.len() {
        return None;
    }
    let mut i: usize = 0;
    while i < ms.len()
        invariant
            i <= ms@.len(),
            ms@.len() <= cs@.len(),
            cs@ == content@,
            ms@ == mention@,
            forall|j: int| 0 <= j < i ==> cs@[j] == ms@[j],
        decreases ms@.len() - i,
    {
        if cs[i] != ms[i] {
            assert(cs@.take(ms@.len() as int)[i as int] != ms@[i as int]);
            return None;
        }
        i = i + 1;
    }
    assert(cs@.take(ms@.len() as int) =~= ms@);
    let tail = string_of(cs.as_slice(), ms.len(), cs.len());
    let r = parse_trimmed(tail.as_str());
    assert(tail@ =~= content@.skip(mention@.len() as int));
    Some(r)
}

fn parse_trimmed(s: &str) -> (r: String)
    ensures
        r@ == trim(s@),
{
    let cs = chars_of(s);
    let (a, b) = trim_chars(&cs);
    string_of(cs.as_slice(), a, b)
}

/// The first word of the arguments, where there is one.
pub fn first_word(args: &str) -> (r: Option<String>)
    ensures
        words_of(args@).len() == 0 ==> r is None,
        words_of(args@).len() > 0 ==> (r matches Some(x) && x@ == words_of(args@)[0]),
{
    let cs = chars_of(args);
    let n = cs.len();
    let mut a: usize = 0;
    while a < n && is_whitespace(cs[a])
        invariant
            a <= n,
            n == cs@.len(),
            forall|j: int| 0 <= j < a ==> is_ws(cs@[j]),
        decreases n - a,
    {
        a = a + 1;
    }
    if a == n {
        proof {
            lemma_word_state_blank(cs@);
        }
        return None;
    }
    let mut b = a;
    while b < n && !is_whitespace(cs[b])
        invariant
            a <= b <= n,
            n == cs@.len(),
            forall|j: int| a <= j < b ==> !is_ws(cs@[j]),
        decreases n - b,
    {
        b = b + 1;
    }
    proof {
        lemma_first_word(cs@, a as int, b as int);
    }
    Some(string_of(cs.as_slice(), a, b))
}

proof fn lemma_word_state_blank(cs: Seq<char>)
    requires
        forall|j: int| 0 <= j < cs.len() ==> is_ws(cs[j]),
    ensures
        word_state_empty(cs),
    decreases cs.len(),
{
    if cs.len() > 0 {
        lemma_word_state_blank(cs.drop_last());
    }
}

pub open spec fn word_state_empty(cs: Seq<char>) -> bool {
    crate::colours::word_state(cs).0.len() == 0 && crate::colours::word_state(cs).1.len() == 0
}

/// Leading white space, then the word `cs[a..b]` ending at white space or at
/// the end: that word is the first of the text.
proof fn lemma_first_word(cs: Seq<char>, a: int, b: int)
    requires
        0 <= a < b <= cs.len(),
        forall|j: int| 0 <= j < a ==> is_ws(cs[j]),
        forall|j: int| a <= j < b ==> !is_ws(cs[j]),
        b == cs.len() || is_ws(cs[b]),
    ensures
        words_of(cs).len() > 0,
        words_of(cs)[0] == cs.subrange(a, b),
{
    lemma_word_state_prefix(cs, a, b, cs.len() as int);
    assert(cs.take(cs.len() as int) =~= cs);
}

/// Past the first word, the first of the words found stays that word.
proof fn lemma_word_state_prefix(cs: Seq<char>, a: int, b: int, m: int)
    requires
        0 <= a < b <= m <= cs.len(),
        forall|j: int| 0 <= j < a ==> is_ws(cs[j]),
        forall|j: int| a <= j < b ==> !is_ws(cs[j]),
        b == cs.len() || is_ws(cs[b]),
    ensures
        m == b ==> crate::colours::word_state(cs.take(m)).0.len() == 0
            && crate::colours::word_state(cs.take(m)).1 == cs.subrange(a, b),
        m > b ==> crate::colours::word_state(cs.take(m)).0.len() > 0
            && crate::colours::word_state(cs.take(m)).0[0] == cs.subrange(a, b),
        words_of(cs.take(m)).len() > 0 && words_of(cs.take(m))[0] == cs.subrange(a, b),
    decreases m,
{
    if m == b {
        lemma_word_state_run(cs, a, b);
    } else {
        lemma_word_state_prefix(cs, a, b, m - 1);
        assert(cs.take(m).drop_last() =~= cs.take(m - 1));
        assert(cs.take(m).last() == cs[m - 1]);
        if m - 1 == b {
            assert(is_ws(cs[b]));
        }
    }
}

/// After white space and then the run `cs[a..b]` of other characters, no
/// word is finished and the run is the word under way.
proof fn lemma_word_state_run(cs: Seq<char>, a: int, b: int)
    requires
        0 <= a <= b <= cs.len(),
        forall|j: int| 0 <= j < a ==> is_ws(cs[j]),
        forall|j: int| a <= j < b ==> !is_ws(cs[j]),
    ensures
        crate::colours::word_state(cs.take(b)).0.len() == 0,
        crate::colours::word_state(cs.take(b)).1 == cs.subrange(a, b),
    decreases b,
{
    if b == a {
        lemma_word_state_blank(cs.take(a));
        assert(cs.subrange(a, b) =~= Seq::<char>::empty());
    } else {
        lemma_word_state_run(cs, a, b - 1);
        assert(cs.take(b).drop_last() =~= cs.take(b - 1));
        assert(cs.take(b).last() == cs[b - 1]);
        assert(cs.subrange(a, b) =~= cs.subrange(a, b - 1).push(cs[b - 1]));
    }
}

/// The value of a field as the bot shows it: the name always, another field
/// where it is set.
pub open spec fn shown_field(p: Profile, field: EditCommand) -> Option<String> {
    match field {
        EditCommand::Name => Some(p.name),
        EditCommand::DisplayName => p.display_name,
        EditCommand::Avatar => p.avatar,
        EditCommand::Colour => p.colour,
    }
}

pub fn field_value(profile: &Profile, field: EditCommand) -> (r: Option<String>)
    ensures
        r == shown_field(*profile, field),
{
    match field {
        EditCommand::Name => Some(profile.name.clone()),
        EditCommand::DisplayName => copy_opt(&profile.display_name),
        EditCommand::Avatar => copy_opt(&profile.avatar),
        EditCommand::Colour => copy_opt(&profile.colour),
    }
}

/// The value an edit sets: the word `clear` unsets the field.
pub open spec fn set_value(value: Seq<char>) -> Option<Seq<char>> {
    if value == "clear"@ {
        None
    } else {
        Some(value)
    }
}

pub open spec fn opt_seq(o: Option<String>) -> Option<Seq<char>> {
    match o {
        Some(s) => Some(s@),
        None => None,
    }
}

/// The profile after an edit of one field to `value` (`None` to unset): a
/// name that is unset stays `name`, and a colour is stored as `colour_of`
/// reads it.
pub open spec fn edited(p: Profile, field: EditCommand, value: Option<Seq<char>>, name: Seq<char>, q: Profile) -> bool {
    &&& q.user_id == p.user_id
    &&& (field == EditCommand::Name ==> q.name@ == match value {
        Some(v) => v,
        None => name,
    })
    &&& (field != EditCommand::Name ==> q.name == p.name)
    &&& (field == EditCommand::DisplayName ==> opt_seq(q.display_name) == value)
    &&& (field != EditCommand::DisplayName ==> q.display_name == p.display_name)
    &&& (field == EditCommand::Avatar ==> opt_seq(q.avatar) == value)
    &&& (field != EditCommand::Avatar ==> q.avatar == p.avatar)
    &&& (field == EditCommand::Colour ==> opt_seq(q.colour) == match value {
        Some(v) => Some(colour_of(v)),
        None => None,
    })
    &&& (field != EditCommand::Colour ==> q.colour == p.colour)
}

/// Applies an edit command with the value typed after the profile name.
pub fn apply_edit(profile: Profile, field: EditCommand, value: &str, name: &str) -> (r: Profile)
    ensures
        edited(profile, field, set_value(value@), name@, r),
{
    let v = value.to_owned();
    let cleared = is_word(&v, "clear");
    let mut p = profile;
    match field {
        EditCommand::Name => {
            p.name = if cleared {
                name.to_owned()
            } else {
                v
            };
        },
        EditCommand::DisplayName => {
            p.display_name = if cleared {
                None
            } else {
                Some(v)
            };
        },
        EditCommand::Avatar => {
            p.avatar = if cleared {
                None
            } else {
                Some(v)
            };
        },
        EditCommand::Colour => {
            p.colour = if cleared {
                None
            } else {
                Some(parse_colours(value))
            };
        },
    }
    p
}

/// The key of the default that a command of `user_id` in `channel_id`
/// assigns; a server default needs a channel of a server.
pub fn default_id(scope: DefaultScope, user_id: &str, server_id: Option<&str>, channel_id: &str) -> (r: Option<DefaultProfileDocId>)
    ensures
        match scope {
            DefaultScope::Global => r matches Some(DefaultProfileDocId::Global { user_id: u }) && u@ == user_id@,
            DefaultScope::Server => match server_id {
                Some(s) => r matches Some(DefaultProfileDocId::Server { user_id: u, server_id: t }) && u@ == user_id@ && t@ == s@,
                None => r is None,
            },
            DefaultScope::Channel => r matches Some(DefaultProfileDocId::Channel { user_id: u, channel_id: c }) && u@ == user_id@ && c@ == channel_id@,
        },
{
    match scope {
        DefaultScope::Global => Some(DefaultProfileDocId::Global { user_id: user_id.to_owned() }),
        DefaultScope::Server => match server_id {
            Some(s) => Some(DefaultProfileDocId::Server { user_id: user_id.to_owned(), server_id: s.to_owned() }),
            None => None,
        },
        DefaultScope::Channel => Some(DefaultProfileDocId::Channel { user_id: user_id.to_owned(), channel_id: channel_id.to_owned() }),
    }
}

/// The profile that `create {name} [display name]` makes for `user_id`,
/// with the avatar of an attachment where one came with the command.
pub fn create_profile(user_id: &str, args: &str, avatar: Option<String>) -> (r: Profile)
    ensures
        r.user_id@ == user_id@,
        r.name@ == split_ws(args@).0,
        opt_seq(r.display_name) == split_ws(args@).1,
        r.avatar == avatar,
        r.colour is None,
{
    let (name, display_name) = split_args(args);
    let mut profile = Profile::new(user_id, name.as_str());
    profile.display_name = display_name;
    profile.avatar = avatar;
    profile
}

} // verus!
