use vstd::prelude::*;
use crate::chars::{push_char, push_str};
use crate::models::Profile;
use validator::{ValidateLength, ValidateUrl};

verus! {

/// The attribute of a profile that a rule is about.
#[derive(Debug, Clone, Copy, PartialEq, Eq, Structural)]
pub enum Field {
    Name,
    DisplayName,
    Avatar,
    Colour,
}

/// The rule that an attribute broke.
#[derive(Debug, Clone, Copy, PartialEq, Eq, Structural)]
pub enum Rule {
    /// The value is empty.
    Empty,
    /// The value has more characters than the field allows.
    TooLong,
    /// The value holds characters that the field does not accept.
    InvalidCharacters,
    /// The value is not a URL.
    InvalidUrl,
    /// The value is not a colour that messages can carry.
    Unsupported,
}

/// One broken rule of one field.
#[derive(Debug, Clone, Copy, PartialEq, Eq, Structural)]
pub struct FieldError {
    pub field: Field,
    pub rule: Rule,
}

/// Whether each text attribute of a profile matches the character pattern of
/// its field. The patterns belong to the chat service and are evaluated by
/// the caller; the rules below combine them with the length and URL rules.
#[derive(Debug, Clone, Copy, PartialEq, Eq, Structural)]
pub struct PatternChecks {
    pub name: bool,
    pub display_name: bool,
    pub colour: bool,
}

pub const NAME_MAX: u64 = 32;
pub const LINK_MAX: u64 = 128;

/// Whether a string parses as a URL.
pub uninterp spec fn url_ok(s: Seq<char>) -> bool;

/// Relies on validator's `ValidateLength::validate_length`: it counts the
/// characters of the string and compares the count with each bound given.
#[verifier::external_body]
fn length_within(s: &str, min: Option<u64>, max: Option<u64>) -> (r: bool)
    ensures
        r == ((min is Some ==> min->0 <= s@.len()) && (max is Some ==> s@.len() <= max->0)),
{
    s.validate_length(min, max, None)
}

/// Relies on validator's `ValidateUrl::validate_url`: whether the string parses
/// as a URL, which depends on the string alone.
#[verifier::external_body]
fn is_url(s: &str) -> (r: bool)
    ensures
        r == url_ok(s@),
{
    s.validate_url()
}

pub open spec fn one_if(cond: bool, e: FieldError) -> Seq<FieldError> {
    if cond {
        seq![e]
    } else {
        Seq::empty()
    }
}

/// The rules broken by one text value: not empty, at most `max` characters,
/// and then the field's own rule (`extra_ok`, reported as `extra`).
pub open spec fn text_errors(
    s: Seq<char>,
    field: Field,
    max: nat,
    extra_ok: bool,
    extra: Rule,
) -> Seq<FieldError> {
    one_if(s.len() < 1, FieldError { field, rule: Rule::Empty }) + one_if(
        s.len() > max,
        FieldError { field, rule: Rule::TooLong },
    ) + one_if(!extra_ok, FieldError { field, rule: extra })
}

pub open spec fn opt_errors(
    o: Option<String>,
    field: Field,
    max: nat,
    extra_ok: bool,
    extra: Rule,
) -> Seq<FieldError> {
    match o {
        Some(s) => text_errors(s@, field, max, extra_ok, extra),
        None => Seq::empty(),
    }
}

/// Every rule that a profile breaks, field by field in the order name,
/// display name, avatar, colour.
pub open spec fn profile_errors(p: Profile, c: PatternChecks) -> Seq<FieldError> {
    text_errors(p.name@, Field::Name, NAME_MAX as nat, c.name, Rule::InvalidCharacters)
        + opt_errors(
        p.display_name,
        Field::DisplayName,
        NAME_MAX as nat,
        c.display_name,
        Rule::InvalidCharacters,
    ) + match p.avatar {
        Some(a) => text_errors(a@, Field::Avatar, LINK_MAX as nat, url_ok(a@), Rule::InvalidUrl),
        None => Seq::empty(),
    } + opt_errors(p.colour, Field::Colour, LINK_MAX as nat, c.colour, Rule::Unsupported)
}

pub open spec fn profile_valid(p: Profile, c: PatternChecks) -> bool {
    profile_errors(p, c).len() == 0
}

fn push_text_errors(
    out: &mut Vec<FieldError>,
    s: &str,
    field: Field,
    max: u64,
    extra_ok: bool,
    extra: Rule,
)
    ensures
        final(out)@ == old(out)@ + text_errors(s@, field, max as nat, extra_ok, extra),
{
    let ghost start = out@;
    if !length_within(s, Some(1), None) {
        out.push(FieldError { field, rule: Rule::Empty });
    }
    if !length_within(s, None, Some(max)) {
        out.push(FieldError { field, rule: Rule::TooLong });
    }
    if !extra_ok {
        out.push(FieldError { field, rule: extra });
    }
    assert(out@ =~= start + text_errors(s@, field, max as nat, extra_ok, extra));
}

/// Lists every rule that the profile breaks; the profile is valid when the
/// list is empty.
pub fn profile_violations(p: &Profile, checks: PatternChecks) -> (r: Vec<FieldError>)
    ensures
        r@ == profile_errors(*p, checks),
{
    let mut out: Vec<FieldError> = Vec::new();
    push_text_errors(&mut out, p.name.as_str(), Field::Name, NAME_MAX, checks.name, Rule::InvalidCharacters);
    let ghost a = out@;
    if let Some(d) = &p.display_name {
        push_text_errors(&mut out, d.as_str(), Field::DisplayName, NAME_MAX, checks.display_name, Rule::InvalidCharacters);
    }
    assert(out@ =~= a + opt_errors(p.display_name, Field::DisplayName, NAME_MAX as nat, checks.display_name, Rule::InvalidCharacters));
    let ghost b = out@;
    if let Some(u) = &p.avatar {
        let ok = is_url(u.as_str());
        push_text_errors(&mut out, u.as_str(), Field::Avatar, LINK_MAX, ok, Rule::InvalidUrl);
    }
    let ghost c = out@;
    if let Some(col) = &p.colour {
        push_text_errors(&mut out, col.as_str(), Field::Colour, LINK_MAX, checks.colour, Rule::Unsupported);
    }
    assert(out@ =~= c + opt_errors(p.colour, Field::Colour, LINK_MAX as nat, checks.colour, Rule::Unsupported));
    assert(out@ =~= profile_errors(*p, checks));
    out
}

impl Field {
    /// The name of the field in messages.
    pub fn label(self) -> (r: &'static str)
        ensures
            r@ == field_label(self),
    {
        match self {
            Field::Name => "name",
            Field::DisplayName => "display_name",
            Field::Avatar => "avatar",
            Field::Colour => "colour",
        }
    }
}

pub open spec fn field_label(f: Field) -> Seq<char> {
    match f {
        Field::Name => "name"@,
        Field::DisplayName => "display_name"@,
        Field::Avatar => "avatar"@,
        Field::Colour => "colour"@,
    }
}

impl FieldError {
    /// What the rule asks, in words.
    pub fn message(self) -> (r: &'static str)
        ensures
            r@ == error_message(self),
    {
        match self.rule {
            Rule::Empty => "cannot be empty",
            Rule::TooLong => match self.field {
                Field::Name | Field::DisplayName => "must be <= 32 characters",
                _ => "must be <= 128 characters",
            },
            Rule::InvalidCharacters => "contains invalid characters",
            Rule::InvalidUrl => "isn't a valid url",
            Rule::Unsupported => "not supported",
        }
    }
}

pub open spec fn error_message(e: FieldError) -> Seq<char> {
    match e.rule {
        Rule::Empty => "cannot be empty"@,
        Rule::TooLong => match e.field {
            Field::Name | Field::DisplayName => "must be <= 32 characters"@,
            _ => "must be <= 128 characters"@,
        },
        Rule::InvalidCharacters => "contains invalid characters"@,
        Rule::InvalidUrl => "isn't a valid url"@,
        Rule::Unsupported => "not supported"@,
    }
}

/// The report of broken rules: one line per rule, the field and then what
/// it asks.
pub open spec fn errors_text(errors: Seq<FieldError>) -> Seq<char>
    decreases errors.len(),
{
    if errors.len() == 0 {
        Seq::empty()
    } else {
        errors_text(errors.drop_last()) + field_label(errors.last().field) + seq![' ']
            + error_message(errors.last()) + seq!['\n']
    }
}

/// Writes the report of broken rules.
pub fn describe_errors(errors: &Vec<FieldError>) -> (r: String)
    ensures
        r@ == errors_text(errors@),
{
    let mut out = String::new();
    let mut i: usize = 0;
    while i < errors.len()
        invariant
            i <= errors@.len(),
            out@ == errors_text(errors@.take(i as int)),
        decreases errors@.len() - i,
    {
        let e = errors[i];
        push_str(&mut out, e.field.label());
        push_char(&mut out, ' ');
        push_str(&mut out, e.message());
        push_char(&mut out, '\n');
        assert(errors@.take(i + 1).drop_last() =~= errors@.take(i as int));
        i = i + 1;
    }
    assert(errors@.take(errors@.len() as int) =~= errors@);
    out
}

/// Every profile of a batch keeps the rules.
pub open spec fn batch_valid(profiles: Seq<Profile>, checks: Seq<PatternChecks>) -> bool {
    forall|i: int| 0 <= i < profiles.len() ==> profile_valid(#[trigger] profiles[i], checks[i])
}

/// Validates a batch before any of it is written: the rules broken by the
/// first profile that breaks any.
pub fn check_batch(profiles: &Vec<Profile>, checks: &Vec<PatternChecks>) -> (r: Result<(), Vec<FieldError>>)
    requires
        checks@.len() == profiles@.len(),
    ensures
        match r {
            Ok(()) => batch_valid(profiles@, checks@),
            Err(v) => exists|i: int|
                0 <= i < profiles@.len() && !profile_valid(#[trigger] profiles@[i], checks@[i])
                    && batch_valid(profiles@.take(i), checks@.take(i))
                    && v@ == profile_errors(profiles@[i], checks@[i]),
        },
{
    let mut i: usize = 0;
    while i < profiles.len()
        invariant
            i <= profiles@.len(),
            checks@.len() == profiles@.len(),
            batch_valid(profiles@.take(i as int), checks@.take(i as int)),
        decreases profiles@.len() - i,
    {
        let errors = profile_violations(&profiles[i], checks[i]);
        if errors.len() > 0 {
            return Err(errors);
        }
        assert(profiles@.take(i + 1) =~= profiles@.take(i as int).push(profiles@[i as int]));
        assert(checks@.take(i + 1) =~= checks@.take(i as int).push(checks@[i as int]));
        i = i + 1;
    }
    assert(profiles@.take(profiles@.len() as int) =~= profiles@);
    assert(checks@.take(checks@.len() as int) =~= checks@);
    Ok(())
}

} // verus!
