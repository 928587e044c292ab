use vstd::prelude::*;
use crate::models::Profile;
use crate::pattern::{matches_pattern, regex_matches};
use crate::chars::{
    chars_of, find_char, first_index, lemma_first_index_at, push_char, push_str, string_of,
};

verus! {

/// Profiles shown on one page of a listing.
pub const PER_PAGE: usize = 5;

/// The number of the last page for `count` profiles; an empty listing still
/// has its first page.
pub open spec fn last_page_of(count: nat) -> nat {
    if count == 0 {
        0
    } else {
        ((count - 1) / (PER_PAGE as int)) as nat
    }
}

pub fn last_page(count: usize) -> (r: usize)
    ensures
        r == last_page_of(count as nat),
{
    if count == 0 {
        0
    } else {
        (count - 1) / PER_PAGE
    }
}

/// How many pages `count` profiles fill.
pub fn page_count(count: usize) -> (r: usize)
    ensures
        r == last_page_of(count as nat) + 1,
{
    last_page(count) + 1
}

/// A step through the pages of a listing.
#[derive(Debug, Clone, Copy, PartialEq, Eq, Structural)]
pub enum Turn {
    Previous,
    Next,
}

/// The reaction that turns a listing back a page.
pub const PREVIOUS: &'static str = "\u{1F448}";
/// The reaction that turns a listing on a page.
pub const NEXT: &'static str = "\u{1F449}";

/// The turn that a reaction asks for, if it is one of the two arrows.
pub fn turn_of(emoji: &str) -> (r: Option<Turn>)
    ensures
        r == if emoji@ == PREVIOUS@ {
            Some(Turn::Previous)
        } else if emoji@ == NEXT@ {
            Some(Turn::Next)
        } else {
            None
        },
{
    let e = emoji.to_owned();
    if e == PREVIOUS.to_owned() {
        Some(Turn::Previous)
    } else if e == NEXT.to_owned() {
        Some(Turn::Next)
    } else {
        None
    }
}

/// The page reached from `current` by one turn: before the first page comes
/// the last, and after the last the first.
pub open spec fn turned(current: nat, last: nat, turn: Turn) -> nat {
    match turn {
        Turn::Previous => if current == 0 {
            last
        } else {
            (current - 1) as nat
        },
        Turn::Next => if current >= last {
            0
        } else {
            current + 1
        },
    }
}

pub fn turn_page(current: usize, last: usize, turn: Turn) -> (r: usize)
    ensures
        r == turned(current as nat, last as nat, turn),
{
    match turn {
        Turn::Previous => if current == 0 {
            last
        } else {
            current - 1
        },
        Turn::Next => if current >= last {
            0
        } else {
            current + 1
        },
    }
}

/// Turning one way and then back returns to any page of the listing.
pub proof fn lemma_turn_back(current: nat, last: nat)
    requires
        current <= last,
    ensures
        turned(turned(current, last, Turn::Next), last, Turn::Previous) == current,
        turned(turned(current, last, Turn::Previous), last, Turn::Next) == current,
{
}

pub open spec fn digit(d: nat) -> char {
    seq!['0', '1', '2', '3', '4', '5', '6', '7', '8', '9'][d as int]
}

/// The decimal digits of a number, as `Display` writes it.
pub open spec fn decimal(n: nat) -> Seq<char>
    decreases n,
{
    if n < 10 {
        seq![digit(n)]
    } else {
        decimal(n / 10).push(digit(n % 10))
    }
}

/// Appends the decimal digits of `n`.
pub fn push_decimal(out: &mut String, n: usize)
    ensures
        final(out)@ == old(out)@ + decimal(n as nat),
    decreases n,
{
    let d: usize = n % 10;
    let c = if d == 0 {
        '0'
    } else if d == 1 {
        '1'
    } else if d == 2 {
        '2'
    } else if d == 3 {
        '3'
    } else if d == 4 {
        '4'
    } else if d == 5 {
        '5'
    } else if d == 6 {
        '6'
    } else if d == 7 {
        '7'
    } else if d == 8 {
        '8'
    } else {
        '9'
    };
    assert(c == digit(d as nat));
    if n >= 10 {
        push_decimal(out, n / 10);
    }
    push_char(out, c);
    assert(final(out)@ =~= old(out)@ + decimal(n as nat));
}

pub open spec fn is_digit(c: char) -> bool {
    '0' <= c && c <= '9'
}

pub open spec fn digit_value(c: char) -> nat {
    (c as u32 - '0' as u32) as nat
}

/// The number that a string of digits writes.
pub open spec fn digits_value(s: Seq<char>) -> nat
    decreases s.len(),
{
    if s.len() == 0 {
        0
    } else {
        digits_value(s.drop_last()) * 10 + digit_value(s.last())
    }
}

/// The digits of a number as `usize::from_str` reads it: after an optional
/// `+`, at least one digit and nothing else.
pub open spec fn unsigned_digits(s: Seq<char>) -> Seq<char> {
    if s.len() > 0 && s[0] == '+' {
        s.drop_first()
    } else {
        s
    }
}

/// The value that `usize::from_str` reads from a string, where it reads one.
pub open spec fn parsed_usize(s: Seq<char>) -> Option<nat> {
    let d = unsigned_digits(s);
    if d.len() > 0 && (forall|i: int| 0 <= i < d.len() ==> is_digit(#[trigger] d[i])) && digits_value(d) <= usize::MAX {
        Some(digits_value(d))
    } else {
        None
    }
}

proof fn lemma_digits_grow(s: Seq<char>, i: int)
    requires
        0 <= i <= s.len(),
    ensures
        digits_value(s.take(i)) <= digits_value(s),
    decreases s.len(),
{
    if i < s.len() {
        assert(s.drop_last().take(i) =~= s.take(i));
        lemma_digits_grow(s.drop_last(), i);
    } else {
        assert(s.take(i) =~= s);
    }
}

/// Reads a number as `usize::from_str` does.
pub fn parse_usize(s: &[char]) -> (r: Option<usize>)
    ensures
        match parsed_usize(s@) {
            Some(v) => r == Some(v as usize),
            None => r is None,
        },
{
    let n = s.len();
    let start: usize = if n > 0 && s[0] == '+' {
        1
    } else {
        0
    };
    let ghost d = unsigned_digits(s@);
    assert(d =~= s@.skip(start as int));
    if start == n {
        return None;
    }
    let mut v: usize = 0;
    let mut i: usize = start;
    while i < n
        invariant
            start <= i <= n,
            n == s@.len(),
            d == s@.skip(start as int),
            d == unsigned_digits(s@),
            forall|k: int| 0 <= k < i - start ==> is_digit(#[trigger] d[k]),
            v as nat == digits_value(d.take(i - start)),
        decreases n - i,
    {
        let c = s[i];
        if !('0' <= c && c <= '9') {
            assert(!is_digit(d[i - start]));
            return None;
        }
        let dv = (c as u32 - '0' as u32) as usize;
        assert(d.take(i - start + 1).drop_last() =~= d.take(i - start));
        assert(d.take(i - start + 1).last() == c);
        assert(digit_value(c) == dv);
        assert(digits_value(d.take(i - start + 1)) == v * 10 + dv);
        match v.checked_mul(10) {
            None => {
                proof {
                    lemma_digits_grow(d, i - start + 1);
                }
                return None;
            },
            Some(m) => match m.checked_add(dv) {
                None => {
                    proof {
                        lemma_digits_grow(d, i - start + 1);
                    }
                    return None;
                },
                Some(w) => {
                    v = w;
                },
            },
        }
        i = i + 1;
    }
    assert(d.take(n - start) =~= d);
    Some(v)
}

/// The characters that open a tag.
pub open spec fn tag_open() -> Seq<char> {
    seq!['[', ']', '(']
}

/// One tag, `[](key:value)`: it renders as nothing, so the state it holds
/// rides along in a message unseen.
pub open spec fn tag_text(key: Seq<char>, value: Seq<char>) -> Seq<char> {
    tag_open() + key + seq![':'] + value + seq![')']
}

/// The tags of the pairs, one after another.
pub open spec fn tags_text(pairs: Seq<(Seq<char>, Seq<char>)>) -> Seq<char>
    decreases pairs.len(),
{
    if pairs.len() == 0 {
        Seq::empty()
    } else {
        tag_text(pairs[0].0, pairs[0].1) + tags_text(pairs.drop_first())
    }
}

/// The first tag at the start of a text: `[](`, then the text up to the
/// first `)`, split at its first `:` into key and value; with the number of
/// characters it takes.
#[verifier::opaque]
pub open spec fn first_tag(t: Seq<char>) -> Option<(Seq<char>, Seq<char>, int)> {
    if t.len() >= 3 && t.take(3) == tag_open() && t.skip(3).contains(')') {
        let s = t.skip(3);
        let k = first_index(s, ')');
        let kv = s.take(k);
        if kv.contains(':') {
            let j = first_index(kv, ':');
            Some((kv.take(j), kv.skip(j + 1), k + 4))
        } else {
            None
        }
    } else {
        None
    }
}

/// The pairs read from the tags at the start of a text, tag after tag,
/// up to the first place where no tag stands.
pub open spec fn tags_of(t: Seq<char>) -> Seq<(Seq<char>, Seq<char>)>
    decreases t.len(),
{
    match first_tag(t) {
        Some((key, value, n)) => if 0 < n <= t.len() {
            seq![(key, value)] + tags_of(t.skip(n))
        } else {
            Seq::empty()
        },
        None => Seq::empty(),
    }
}

/// A pair that a tag can carry: a key without `:` or `)`, a value without `)`.
pub open spec fn tag_ok(p: (Seq<char>, Seq<char>)) -> bool {
    !p.0.contains(':') && !p.0.contains(')') && !p.1.contains(')')
}

proof fn lemma_first_tag(key: Seq<char>, value: Seq<char>, u: Seq<char>)
    requires
        tag_ok((key, value)),
    ensures
        first_tag(tag_text(key, value) + u) == Some((key, value, tag_text(key, value).len() as int)),
{
    reveal(first_tag);
    let t = tag_text(key, value) + u;
    assert(t =~= tag_open() + (key + seq![':'] + value + seq![')'] + u));
    assert(t.take(3) =~= tag_open());
    let s = t.skip(3);
    assert(s =~= key + seq![':'] + value + seq![')'] + u);
    let m: int = key.len() as int + 1 + value.len() as int;
    assert forall|j: int| 0 <= j < m implies s[j] != ')' by {
        if j < key.len() {
            assert(s[j] == key[j]);
        } else if j > key.len() {
            assert(s[j] == value[j - key.len() - 1]);
        }
    }
    assert(s[m] == ')');
    lemma_first_index_at(s, ')', m);
    let kv = s.take(m);
    assert(kv =~= key + seq![':'] + value);
    assert forall|j: int| 0 <= j < key.len() implies kv[j] != ':' by {
        assert(kv[j] == key[j]);
    }
    assert(kv[key.len() as int] == ':');
    lemma_first_index_at(kv, ':', key.len() as int);
    assert(kv.take(key.len() as int) =~= key);
    assert(kv.skip(key.len() as int + 1) =~= value);
}

/// Reading the tags back gives the pairs that were written, whatever text
/// follows them, so long as it does not itself begin with a tag.
pub proof fn lemma_tags_round_trip(pairs: Seq<(Seq<char>, Seq<char>)>, rest: Seq<char>)
    requires
        forall|i: int| 0 <= i < pairs.len() ==> tag_ok(#[trigger] pairs[i]),
        !(rest.len() >= 3 && rest.take(3) == tag_open()),
    ensures
        tags_of(tags_text(pairs) + rest) == pairs,
    decreases pairs.len(),
{
    if pairs.len() == 0 {
        reveal(first_tag);
        assert(tags_text(pairs) + rest =~= rest);
        assert(pairs =~= Seq::<(Seq<char>, Seq<char>)>::empty());
    } else {
        let key = pairs[0].0;
        let value = pairs[0].1;
        assert(tag_ok(pairs[0]));
        let tail = pairs.drop_first();
        assert forall|i: int| 0 <= i < tail.len() implies tag_ok(#[trigger] tail[i]) by {
            assert(tail[i] == pairs[i + 1]);
        }
        lemma_tags_round_trip(tail, rest);
        let u = tags_text(tail) + rest;
        let t = tags_text(pairs) + rest;
        assert(t =~= tag_text(key, value) + u);
        lemma_first_tag(key, value, u);
        assert(t.skip(tag_text(key, value).len() as int) =~= u);
        assert(tags_of(t) =~= seq![(key, value)] + tail);
        assert(seq![(key, value)] + tail =~= pairs);
    }
}

/// Appends one tag.
pub fn push_tag(out: &mut String, key: &str, value: &str)
    ensures
        final(out)@ == old(out)@ + tag_text(key@, value@),
{
    push_char(out, '[');
    push_char(out, ']');
    push_char(out, '(');
    push_str(out, key);
    push_char(out, ':');
    push_str(out, value);
    push_char(out, ')');
    assert(final(out)@ =~= old(out)@ + tag_text(key@, value@));
}

pub open spec fn pairs_view(v: Seq<(String, String)>) -> Seq<(Seq<char>, Seq<char>)> {
    v.map_values(|p: (String, String)| (p.0@, p.1@))
}

proof fn lemma_tag_at(t: Seq<char>, j: int, k: int)
    requires
        t.len() >= 3,
        t.take(3) == tag_open(),
        3 <= j < k < t.len(),
        t[k] == ')',
        t[j] == ':',
        forall|x: int| 3 <= x < k ==> t[x] != ')',
        forall|x: int| 3 <= x < j ==> t[x] != ':',
    ensures
        first_tag(t) == Some((t.subrange(3, j), t.subrange(j + 1, k), k + 1)),
{
    reveal(first_tag);
    let s = t.skip(3);
    assert forall|x: int| 0 <= x < k - 3 implies s[x] != ')' by {
        assert(s[x] == t[x + 3]);
    }
    assert(s[k - 3] == t[k]);
    lemma_first_index_at(s, ')', k - 3);
    let kv = s.take(k - 3);
    assert forall|x: int| 0 <= x < j - 3 implies kv[x] != ':' by {
        assert(kv[x] == t[x + 3]);
    }
    assert(kv[j - 3] == t[j]);
    lemma_first_index_at(kv, ':', j - 3);
    assert(kv.take(j - 3) =~= t.subrange(3, j));
    assert(kv.skip(j - 3 + 1) =~= t.subrange(j + 1, k));
}

proof fn lemma_no_open(t: Seq<char>)
    requires
        !(t.len() >= 3 && t.take(3) == tag_open()),
    ensures
        first_tag(t) is None,
{
    reveal(first_tag);
}

proof fn lemma_no_close(t: Seq<char>)
    requires
        forall|x: int| 3 <= x < t.len() ==> t[x] != ')',
    ensures
        first_tag(t) is None,
{
    reveal(first_tag);
    if t.len() >= 3 {
        let s = t.skip(3);
        assert forall|x: int| 0 <= x < s.len() implies s[x] != ')' by {
            assert(s[x] == t[x + 3]);
        }
    }
}

proof fn lemma_no_colon(t: Seq<char>, k: int)
    requires
        3 <= k < t.len(),
        t[k] == ')',
        forall|x: int| 3 <= x < k ==> t[x] != ')' && t[x] != ':',
    ensures
        first_tag(t) is None,
{
    reveal(first_tag);
    let s = t.skip(3);
    assert forall|x: int| 0 <= x < k - 3 implies s[x] != ')' by {
        assert(s[x] == t[x + 3]);
    }
    assert(s[k - 3] == t[k]);
    lemma_first_index_at(s, ')', k - 3);
    let kv = s.take(k - 3);
    assert forall|x: int| 0 <= x < kv.len() implies kv[x] != ':' by {
        assert(kv[x] == t[x + 3]);
    }
}

/// Reads the tag that starts at `cs[i]`, if one does: its key, its value,
/// and where the text after it starts.
fn read_tag(cs: &Vec<char>, i: usize) -> (r: Option<(String, String, usize)>)
    requires
        i <= cs@.len(),
    ensures
        match first_tag(cs@.skip(i as int)) {
            Some((key, value, m)) => r matches Some(x) && x.0@ == key && x.1@ == value
                && x.2 == i + m && i < x.2 <= cs@.len(),
            None => r is None,
        },
{
    let n = cs.len();
    let ghost t = cs@.skip(i as int);
    if !(n - i >= 3 && cs[i] == '[' && cs[i + 1] == ']' && cs[i + 2] == '(') {
        proof {
            if t.len() >= 3 && t.take(3) == tag_open() {
                assert(t.take(3)[0] == cs@[i as int]);
                assert(t.take(3)[1] == cs@[i + 1]);
                assert(t.take(3)[2] == cs@[i + 2]);
            }
            lemma_no_open(t);
        }
        return None;
    }
    assert(t.take(3) =~= tag_open());
    let k = match find_char(cs.as_slice(), ')', i + 3, n) {
        Some(k) => k,
        None => {
            proof {
                assert forall|x: int| 3 <= x < t.len() implies t[x] != ')' by {
                    assert(t[x] == cs@[i + x]);
                }
                lemma_no_close(t);
            }
            return None;
        },
    };
    let j = match find_char(cs.as_slice(), ':', i + 3, k) {
        Some(j) => j,
        None => {
            proof {
                assert forall|x: int| 3 <= x < k - i implies t[x] != ')' && t[x] != ':' by {
                    assert(t[x] == cs@[i + x]);
                }
                assert(t[k - i] == cs@[k as int]);
                lemma_no_colon(t, k - i);
            }
            return None;
        },
    };
    let key = string_of(cs.as_slice(), i + 3, j);
    let value = string_of(cs.as_slice(), j + 1, k);
    proof {
        assert forall|x: int| 3 <= x < k - i implies t[x] != ')' by {
            assert(t[x] == cs@[i + x]);
        }
        assert forall|x: int| 3 <= x < j - i implies t[x] != ':' by {
            assert(t[x] == cs@[i + x]);
        }
        assert(t[k - i] == cs@[k as int]);
        assert(t[j - i] == cs@[j as int]);
        lemma_tag_at(t, j - i, k - i);
        assert(t.subrange(3, j - i) =~= key@);
        assert(t.subrange(j - i + 1, k - i) =~= value@);
    }
    Some((key, value, k + 1))
}

/// Reads the tags at the start of a text, in order.
pub fn get_data(text: &str) -> (r: Vec<(String, String)>)
    ensures
        pairs_view(r@) == tags_of(text@),
{
    let cs = chars_of(text);
    let n = cs.len();
    let mut out: Vec<(String, String)> = Vec::new();
    let mut i: usize = 0;
    assert(cs@.skip(0) =~= cs@);
    assert(pairs_view(out@) =~= Seq::<(Seq<char>, Seq<char>)>::empty());
    loop
        invariant
            i <= n,
            n == cs@.len(),
            cs@ == text@,
            pairs_view(out@) + tags_of(cs@.skip(i as int)) == tags_of(text@),
        decreases n - i,
    {
        let ghost t = cs@.skip(i as int);
        match read_tag(&cs, i) {
            None => {
                assert(pairs_view(out@) + tags_of(t) =~= pairs_view(out@));
                return out;
            },
            Some((key, value, next)) => {
                let ghost before = pairs_view(out@);
                proof {
                    assert(t.skip(next - i) =~= cs@.skip(next as int));
                    assert(tags_of(t) == seq![(key@, value@)] + tags_of(cs@.skip(next as int)));
                }
                out.push((key, value));
                proof {
                    assert(pairs_view(out@) =~= before.push((key@, value@)));
                    assert(pairs_view(out@) + tags_of(cs@.skip(next as int)) =~= before + tags_of(t));
                }
                i = next;
            },
        }
    }
}

/// The value of the last pair with the given key, as a map that is filled
/// pair by pair would hold it.
pub open spec fn last_value(pairs: Seq<(Seq<char>, Seq<char>)>, key: Seq<char>) -> Option<Seq<char>>
    decreases pairs.len(),
{
    if pairs.len() == 0 {
        None
    } else if pairs.last().0 == key {
        Some(pairs.last().1)
    } else {
        last_value(pairs.drop_last(), key)
    }
}

/// The value that the tags give to a key.
pub fn tag_value(pairs: &Vec<(String, String)>, key: &str) -> (r: Option<String>)
    ensures
        match last_value(pairs_view(pairs@), key@) {
            Some(v) => r matches Some(x) && x@ == v,
            None => r is None,
        },
{
    let k = key.to_owned();
    let mut i: usize = pairs.len();
    assert(pairs@.take(i as int) =~= pairs@);
    while i > 0
        invariant
            i <= pairs@.len(),
            k@ == key@,
            last_value(pairs_view(pairs@), key@) == last_value(pairs_view(pairs@.take(i as int)), key@),
        decreases i,
    {
        assert(pairs_view(pairs@.take(i as int)).last() == (pairs@[i - 1].0@, pairs@[i - 1].1@));
        assert(pairs_view(pairs@.take(i as int)).drop_last() =~= pairs_view(pairs@.take(i - 1)));
        if pairs[i - 1].0 == k {
            return Some(pairs[i - 1].1.clone());
        }
        i = i - 1;
    }
    None
}

/// The colours that a listing paints a name with: six hex digits after `#`,
/// or a colour name.
pub const LISTING_COLOUR: &'static str = "(?i)^(#[a-f0-9]{6}|[a-z]+)$";

pub const TABLE_HEAD: &'static str = "\n| Name | Display Name | Avatar | Colour |\n|-|-|-|-|";
pub const ROW_START: &'static str = "\n|";
pub const PAINT_START: &'static str = "\n|$\\color{";
pub const PAINT_MIDDLE: &'static str = "}\\textsf{";
pub const PAINT_END: &'static str = "}$";
pub const CELL: &'static str = "|";
pub const LINK_START: &'static str = "[Link](<";
pub const LINK_END: &'static str = ">)";

pub open spec fn key_type() -> Seq<char> {
    seq!['T']
}

pub open spec fn key_page() -> Seq<char> {
    seq!['P']
}

pub open spec fn kind_listing() -> Seq<char> {
    seq!['L']
}

/// The head of a page: its tags, `page+1/last+1`, and the table's head.
pub open spec fn header_text(page: nat, last: nat) -> Seq<char> {
    tags_text(seq![(key_type(), kind_listing()), (key_page(), decimal(page))]) + decimal(page + 1)
        + seq!['/'] + decimal(last + 1) + TABLE_HEAD@
}

pub open spec fn opt_text(o: Option<String>) -> Seq<char> {
    match o {
        Some(s) => s@,
        None => Seq::empty(),
    }
}

/// Whether the listing paints the profile's name in its colour.
pub open spec fn painted(p: Profile) -> bool {
    match p.colour {
        Some(c) => regex_matches(LISTING_COLOUR@, c@),
        None => false,
    }
}

/// One row of the table: name (painted where the colour allows), display
/// name, avatar link, colour.
pub open spec fn row_text(p: Profile, paint: bool) -> Seq<char> {
    (if paint {
        PAINT_START@ + opt_text(p.colour) + PAINT_MIDDLE@ + p.name@ + PAINT_END@
    } else {
        ROW_START@ + p.name@
    }) + CELL@ + opt_text(p.display_name) + CELL@ + match p.avatar {
        Some(u) => LINK_START@ + u@ + LINK_END@,
        None => Seq::empty(),
    } + CELL@ + opt_text(p.colour) + CELL@
}

/// The rows of the profiles, each painted where its flag says so.
pub open spec fn rows_text(ps: Seq<Profile>, paint: Seq<bool>) -> Seq<char>
    decreases ps.len(),
{
    if ps.len() == 0 {
        Seq::empty()
    } else {
        rows_text(ps.drop_last(), paint.drop_last()) + row_text(ps.last(), paint.last())
    }
}

/// For each profile, whether the listing paints its name.
pub open spec fn paints(ps: Seq<Profile>) -> Seq<bool> {
    Seq::new(ps.len(), |i: int| painted(ps[i]))
}

/// The text of page `page` of a listing of `profiles`, with the name of
/// profile `i` painted where `paint[i]` holds; a page past the end has the
/// head alone.
pub open spec fn page_text_with(profiles: Seq<Profile>, page: nat, paint: Seq<bool>) -> Seq<char> {
    let start = page * PER_PAGE;
    let end = if start + PER_PAGE < profiles.len() {
        start + PER_PAGE
    } else {
        profiles.len() as int
    };
    header_text(page, last_page_of(profiles.len())) + if start >= profiles.len() {
        Seq::empty()
    } else {
        rows_text(profiles.subrange(start as int, end), paint.subrange(start as int, end))
    }
}

/// The text of page `page` of a listing of `profiles`.
pub open spec fn page_text(profiles: Seq<Profile>, page: nat) -> Seq<char> {
    page_text_with(profiles, page, paints(profiles))
}

fn push_opt(out: &mut String, o: &Option<String>)
    ensures
        final(out)@ == old(out)@ + opt_text(*o),
{
    match o {
        Some(s) => push_str(out, s.as_str()),
        None => {
            assert(old(out)@ + opt_text(*o) =~= old(out)@);
        },
    }
}

fn push_row(out: &mut String, p: &Profile, paint: bool)
    ensures
        final(out)@ == old(out)@ + row_text(*p, paint),
{
    let ghost start = out@;
    if paint {
        push_str(out, PAINT_START);
        push_opt(out, &p.colour);
        push_str(out, PAINT_MIDDLE);
        push_str(out, p.name.as_str());
        push_str(out, PAINT_END);
    } else {
        push_str(out, ROW_START);
        push_str(out, p.name.as_str());
    }
    push_str(out, CELL);
    push_opt(out, &p.display_name);
    push_str(out, CELL);
    let ghost mid = out@;
    match &p.avatar {
        Some(u) => {
            push_str(out, LINK_START);
            push_str(out, u.as_str());
            push_str(out, LINK_END);
        },
        None => {},
    }
    push_str(out, CELL);
    push_opt(out, &p.colour);
    push_str(out, CELL);
    assert(out@ =~= start + row_text(*p, paint));
}

/// For each profile, whether the listing paints its name in its colour.
pub fn paint_flags(profiles: &[Profile]) -> (r: Vec<bool>)
    ensures
        r@ == paints(profiles@),
{
    let mut out: Vec<bool> = Vec::new();
    let mut i: usize = 0;
    while i < profiles.len()
        invariant
            i <= profiles@.len(),
            out@ == paints(profiles@).take(i as int),
        decreases profiles@.len() - i,
    {
        let paint = match &profiles[i].colour {
            Some(c) => matches_pattern(LISTING_COLOUR, c.as_str()),
            None => false,
        };
        out.push(paint);
        i = i + 1;
        assert(out@ =~= paints(profiles@).take(i as int));
    }
    assert(paints(profiles@).take(profiles@.len() as int) =~= paints(profiles@));
    out
}

/// Renders page `page` of a listing of `profiles`.
pub fn get_page(profiles: &[Profile], page: usize) -> (r: String)
    requires
        page < usize::MAX,
    ensures
        r@ == page_text(profiles@, page as nat),
{
    let paint = paint_flags(profiles);
    render_page(profiles, page, &paint)
}

/// Renders page `page` of a listing of `profiles`, painting the name of
/// profile `i` where `paint[i]` holds.
pub fn render_page(profiles: &[Profile], page: usize, paint: &Vec<bool>) -> (r: String)
    requires
        page < usize::MAX,
        paint@.len() == profiles@.len(),
    ensures
        r@ == page_text_with(profiles@, page as nat, paint@),
{
    let last = last_page(profiles.len());
    let mut text = String::new();
    push_tag(&mut text, "T", "L");
    let mut digits = String::new();
    push_decimal(&mut digits, page);
    push_tag(&mut text, "P", digits.as_str());
    push_decimal(&mut text, page + 1);
    push_char(&mut text, '/');
    push_decimal(&mut text, last + 1);
    push_str(&mut text, TABLE_HEAD);
    proof {
        reveal_strlit("T");
        reveal_strlit("L");
        reveal_strlit("P");
        assert("T"@ =~= key_type());
        assert("L"@ =~= kind_listing());
        assert("P"@ =~= key_page());
        let pairs = seq![(key_type(), kind_listing()), (key_page(), decimal(page as nat))];
        assert(pairs.drop_first().drop_first() =~= Seq::<(Seq<char>, Seq<char>)>::empty());
        assert(pairs.drop_first()[0] == (key_page(), decimal(page as nat)));
        assert(tags_text(pairs.drop_first().drop_first()) == Seq::<char>::empty());
        assert(tags_text(pairs.drop_first()) == tag_text(key_page(), decimal(page as nat)) + tags_text(pairs.drop_first().drop_first()));
        assert(tags_text(pairs.drop_first()) =~= tag_text(key_page(), decimal(page as nat)));
        assert(tags_text(pairs) =~= tag_text(key_type(), kind_listing()) + tag_text(key_page(), decimal(page as nat)));
        assert(text@ =~= header_text(page as nat, last_page_of(profiles@.len())));
    }
    let n = profiles.len();
    let start = match page.checked_mul(PER_PAGE) {
        Some(s) => s,
        None => return text,
    };
    if start >= n {
        assert(text@ =~= page_text_with(profiles@, page as nat, paint@));
        return text;
    }
    let end = if n - start > PER_PAGE {
        start + PER_PAGE
    } else {
        n
    };
    let ghost head = text@;
    let mut i = start;
    assert(profiles@.subrange(start as int, start as int) =~= Seq::<Profile>::empty());
    while i < end
        invariant
            start <= i <= end,
            end <= profiles@.len(),
            paint@.len() == profiles@.len(),
            text@ == head + rows_text(profiles@.subrange(start as int, i as int), paint@.subrange(start as int, i as int)),
        decreases end - i,
    {
        push_row(&mut text, &profiles[i], paint[i]);
        assert(profiles@.subrange(start as int, i + 1).drop_last() =~= profiles@.subrange(start as int, i as int));
        assert(paint@.subrange(start as int, i + 1).drop_last() =~= paint@.subrange(start as int, i as int));
        i = i + 1;
    }
    text
}

/// The page that a listing shows, as its tags record it; the first page
/// where they record none.
pub open spec fn current_page(content: Seq<char>) -> nat {
    match last_value(tags_of(content), key_page()) {
        Some(v) => match parsed_usize(v) {
            Some(n) => n,
            None => 0,
        },
        None => 0,
    }
}

/// The new text of a listing after one turn, or `None` where it would not
/// change.
pub open spec fn turned_listing(profiles: Seq<Profile>, content: Seq<char>, turn: Turn) -> Option<Seq<char>> {
    turned_listing_with(profiles, paints(profiles), content, turn)
}

/// The new text of a listing after one turn, with the names painted as
/// `paint` says, or `None` where it would not change.
pub open spec fn turned_listing_with(profiles: Seq<Profile>, paint: Seq<bool>, content: Seq<char>, turn: Turn) -> Option<Seq<char>> {
    let text = page_text_with(profiles, turned(current_page(content), last_page_of(profiles.len()), turn), paint);
    if text == content {
        None
    } else {
        Some(text)
    }
}

/// Whether a message is a listing, by its tags.
pub fn is_listing(content: &str) -> (r: bool)
    ensures
        r == (last_value(tags_of(content@), key_type()) == Some(kind_listing())),
{
    let data = get_data(content);
    let kind = tag_value(&data, "T");
    proof {
        reveal_strlit("T");
        reveal_strlit("L");
        assert("T"@ =~= key_type());
        assert("L"@ =~= kind_listing());
    }
    match kind {
        Some(k) => {
            let l = "L".to_owned();
            k == l
        },
        None => false,
    }
}

/// Turns a listing one page: reads the page it shows from its tags, renders
/// the page one turn away from the current profiles, and returns it unless
/// it is the text already shown.
pub fn on_listing_react(profiles: &[Profile], content: &str, turn: Turn) -> (r: Option<String>)
    ensures
        match turned_listing(profiles@, content@, turn) {
            Some(t) => r matches Some(x) && x@ == t,
            None => r is None,
        },
{
    let paint = paint_flags(profiles);
    turn_listing(profiles, &paint, content, turn)
}

/// Turns a listing one page, painting the name of profile `i` where
/// `paint[i]` holds.
pub fn turn_listing(profiles: &[Profile], paint: &Vec<bool>, content: &str, turn: Turn) -> (r: Option<String>)
    requires
        paint@.len() == profiles@.len(),
    ensures
        match turned_listing_with(profiles@, paint@, content@, turn) {
            Some(t) => r matches Some(x) && x@ == t,
            None => r is None,
        },
{
    let data = get_data(content);
    proof {
        reveal_strlit("P");
        assert("P"@ =~= key_page());
    }
    let current = match tag_value(&data, "P") {
        Some(v) => {
            let cs = chars_of(v.as_str());
            match parse_usize(cs.as_slice()) {
                Some(n) => n,
                None => 0,
            }
        },
        None => 0,
    };
    let last = last_page(profiles.len());
    let page = turn_page(current, last, turn);
    let text = render_page(profiles, page, paint);
    let shown = content.to_owned();
    if text == shown {
        None
    } else {
        Some(text)
    }
}

proof fn lemma_digit(d: nat)
    requires
        d < 10,
    ensures
        is_digit(digit(d)),
        digit_value(digit(d)) == d,
{
    let t = seq!['0', '1', '2', '3', '4', '5', '6', '7', '8', '9'];
    assert(t[0] == '0' && t[1] == '1' && t[2] == '2' && t[3] == '3' && t[4] == '4');
    assert(t[5] == '5' && t[6] == '6' && t[7] == '7' && t[8] == '8' && t[9] == '9');
}

proof fn lemma_decimal(n: nat)
    ensures
        decimal(n).len() > 0,
        forall|i: int| 0 <= i < decimal(n).len() ==> is_digit(#[trigger] decimal(n)[i]),
        digits_value(decimal(n)) == n,
    decreases n,
{
    if n < 10 {
        lemma_digit(n);
        assert(decimal(n).drop_last() =~= Seq::<char>::empty());
        assert(decimal(n).last() == digit(n));
        assert(digits_value(Seq::<char>::empty()) == 0);
        assert(digits_value(decimal(n)) == digits_value(decimal(n).drop_last()) * 10 + digit_value(decimal(n).last()));
    } else {
        lemma_decimal(n / 10);
        lemma_digit(n % 10);
        assert(decimal(n).drop_last() =~= decimal(n / 10));
        assert(decimal(n).last() == digit(n % 10));
        assert(n == (n / 10) * 10 + n % 10) by (nonlinear_arith);
        assert(digits_value(decimal(n)) == digits_value(decimal(n).drop_last()) * 10 + digit_value(decimal(n).last()));
        assert forall|i: int| 0 <= i < decimal(n).len() implies is_digit(#[trigger] decimal(n)[i]) by {
            if i < decimal(n / 10).len() {
                assert(decimal(n)[i] == decimal(n / 10)[i]);
            }
        }
    }
}

/// A rendered page records itself: its tags mark it as a listing and read
/// back as its own page number, however its names are painted.
pub proof fn lemma_page_records_itself(profiles: Seq<Profile>, page: nat, paint: Seq<bool>)
    requires
        page < usize::MAX,
    ensures
        last_value(tags_of(page_text_with(profiles, page, paint)), key_type()) == Some(kind_listing()),
        current_page(page_text_with(profiles, page, paint)) == page,
{
    let dec = decimal(page);
    lemma_decimal(page);
    lemma_decimal(page + 1);
    let pairs = seq![(key_type(), kind_listing()), (key_page(), dec)];
    let rest = decimal(page + 1) + seq!['/'] + decimal(last_page_of(profiles.len()) + 1) + TABLE_HEAD@ + (
    if page * PER_PAGE >= profiles.len() {
        Seq::empty()
    } else {
        rows_text(
            profiles.subrange(
                (page * PER_PAGE) as int,
                if page * PER_PAGE + PER_PAGE < profiles.len() {
                    page * PER_PAGE + PER_PAGE
                } else {
                    profiles.len() as int
                },
            ),
            paint.subrange(
                (page * PER_PAGE) as int,
                if page * PER_PAGE + PER_PAGE < profiles.len() {
                    page * PER_PAGE + PER_PAGE
                } else {
                    profiles.len() as int
                },
            ),
        )
    });
    assert(page_text_with(profiles, page, paint) =~= tags_text(pairs) + rest);
    assert(rest[0] == decimal(page + 1)[0]);
    assert(is_digit(decimal(page + 1)[0]));
    if rest.len() >= 3 && rest.take(3) == tag_open() {
        assert(rest.take(3)[0] == '[');
    }
    assert forall|i: int| 0 <= i < pairs.len() implies tag_ok(#[trigger] pairs[i]) by {
        assert(!key_type().contains(':') && !key_type().contains(')'));
        if kind_listing().contains(')') {
            let k = choose|k: int| 0 <= k < kind_listing().len() && kind_listing()[k] == ')';
            assert(k == 0);
        }
        if key_type().contains(':') || key_type().contains(')') {
            let k = choose|k: int| 0 <= k < key_type().len() && (key_type()[k] == ':' || key_type()[k] == ')');
            assert(k == 0);
        }
        if key_page().contains(':') || key_page().contains(')') {
            let k = choose|k: int| 0 <= k < key_page().len() && (key_page()[k] == ':' || key_page()[k] == ')');
            assert(k == 0);
        }
        if dec.contains(')') {
            let k = choose|k: int| 0 <= k < dec.len() && dec[k] == ')';
            assert(is_digit(dec[k]));
        }
    }
    lemma_tags_round_trip(pairs, rest);
    assert(pairs.drop_last() =~= seq![(key_type(), kind_listing())]);
    assert(seq![(key_type(), kind_listing())].drop_last() =~= Seq::<(Seq<char>, Seq<char>)>::empty());
    assert(key_page()[0] != key_type()[0]);
    assert(key_page() != key_type());
    assert(pairs.last() == (key_page(), dec));
    assert(last_value(pairs.drop_last(), key_type()) == Some(kind_listing()));
    assert(tags_of(page_text_with(profiles, page, paint)) == pairs);
    assert(unsigned_digits(dec) == dec);
}

/// A turn that lands on the page already shown asks for no edit: showing a
/// page and turning to it again leaves the message as it is.
pub proof fn lemma_same_page_no_edit(profiles: Seq<Profile>, paint: Seq<bool>, page: nat, turn: Turn)
    requires
        page < usize::MAX,
        turned(page, last_page_of(profiles.len()), turn) == page,
    ensures
        turned_listing_with(profiles, paint, page_text_with(profiles, page, paint), turn) is None,
{
    lemma_page_records_itself(profiles, page, paint);
}

} // verus!
