use vstd::prelude::*;
use crate::chars::{chars_of, is_whitespace, is_ws, push_str, string_of, trim_start};
use crate::pattern::{matches_pattern, regex_matches};

verus! {

/// One colour of a gradient: a colour name, or hex digits with or without `#`.
pub const COLOUR_WORD: &'static str = "(?i)^(#?[a-z0-9]+)$";
pub const GRADIENT_START: &'static str = "linear-gradient(to right,";

/// The text without its trailing white space.
pub open spec fn trim_end(s: Seq<char>) -> Seq<char>
    decreases s.len(),
{
    if s.len() > 0 && is_ws(s.last()) {
        trim_end(s.drop_last())
    } else {
        s
    }
}

/// The text without white space at either end.
pub open spec fn trim(s: Seq<char>) -> Seq<char> {
    trim_end(trim_start(s))
}

/// The words found so far, and the word under way, after reading `cs`.
pub open spec fn word_state(cs: Seq<char>) -> (Seq<Seq<char>>, Seq<char>)
    decreases cs.len(),
{
    if cs.len() == 0 {
        (Seq::empty(), Seq::empty())
    } else {
        let (done, cur) = word_state(cs.drop_last());
        if is_ws(cs.last()) {
            if cur.len() > 0 {
                (done.push(cur), Seq::empty())
            } else {
                (done, cur)
            }
        } else {
            (done, cur.push(cs.last()))
        }
    }
}

/// The words of a text as `str::split_whitespace` gives them.
pub open spec fn words_of(cs: Seq<char>) -> Seq<Seq<char>> {
    let (done, cur) = word_state(cs);
    if cur.len() > 0 {
        done.push(cur)
    } else {
        done
    }
}

/// The words joined with commas.
pub open spec fn joined(words: Seq<Seq<char>>) -> Seq<char>
    decreases words.len(),
{
    if words.len() == 0 {
        Seq::empty()
    } else if words.len() == 1 {
        words[0]
    } else {
        joined(words.drop_last()) + seq![','] + words.last()
    }
}

/// The colour stored for what a user typed, given for each of its words
/// whether it is a colour word: two or more words that all are become a
/// left-to-right gradient through them; anything else is kept as typed,
/// without surrounding white space.
pub open spec fn colour_with(input: Seq<char>, word_ok: Seq<bool>) -> Seq<char> {
    let words = words_of(trim(input));
    if words.len() > 1 && forall|i: int| 0 <= i < words.len() ==> #[trigger] word_ok[i] {
        GRADIENT_START@ + joined(words) + seq![')']
    } else {
        trim(input)
    }
}

/// Whether each word of the text is a colour word.
pub open spec fn colour_words_ok(input: Seq<char>) -> Seq<bool> {
    Seq::new(words_of(trim(input)).len(), |i: int| regex_matches(COLOUR_WORD@, words_of(trim(input))[i]))
}

/// The colour stored for what a user typed.
pub open spec fn colour_of(input: Seq<char>) -> Seq<char> {
    colour_with(input, colour_words_ok(input))
}

pub(crate) fn trim_chars(cs: &Vec<char>) -> (r: (usize, usize))
    ensures
        r.0 <= r.1 <= cs@.len(),
        cs@.subrange(r.0 as int, r.1 as int) == trim(cs@),
{
    let n = cs.len();
    let a = crate::chars::skip_ws(cs.as_slice(), 0);
    assert(cs@.subrange(0, n as int) =~= cs@);
    let mut b = n;
    while b > a && is_whitespace(cs[b - 1])
        invariant
            a <= b <= n,
            n == cs@.len(),
            trim_end(cs@.subrange(a as int, b as int)) == trim(cs@),
        decreases b,
    {
        assert(cs@.subrange(a as int, b as int).drop_last() =~= cs@.subrange(a as int, b - 1));
        b = b - 1;
    }
    (a, b)
}

fn split_words(cs: &Vec<char>, from: usize, to: usize) -> (r: Vec<String>)
    requires
        from <= to <= cs@.len(),
    ensures
        r@.len() == words_of(cs@.subrange(from as int, to as int)).len(),
        forall|k: int| 0 <= k < r@.len() ==> (#[trigger] r@[k])@ == words_of(cs@.subrange(from as int, to as int))[k],
{
    let ghost w = cs@.subrange(from as int, to as int);
    let mut done: Vec<String> = Vec::new();
    let mut start = from;
    let mut i = from;
    while i < to
        invariant
            from <= start <= i <= to,
            to <= cs@.len(),
            w == cs@.subrange(from as int, to as int),
            done@.len() == word_state(w.take(i - from)).0.len(),
            forall|k: int| 0 <= k < done@.len() ==> (#[trigger] done@[k])@ == word_state(w.take(i - from)).0[k],
            cs@.subrange(start as int, i as int) == word_state(w.take(i - from)).1,
        decreases to - i,
    {
        assert(w.take(i - from + 1).drop_last() =~= w.take(i - from));
        assert(w.take(i - from + 1).last() == cs@[i as int]);
        if is_whitespace(cs[i]) {
            if i > start {
                let word = string_of(cs.as_slice(), start, i);
                done.push(word);
            }
            start = i + 1;
            assert(cs@.subrange(start as int, i + 1) =~= Seq::<char>::empty());
        } else {
            assert(cs@.subrange(start as int, i + 1) =~= cs@.subrange(start as int, i as int).push(cs@[i as int]));
        }
        i = i + 1;
    }
    assert(w.take(to - from) =~= w);
    if to > start {
        let word = string_of(cs.as_slice(), start, to);
        done.push(word);
    }
    done
}

/// The words of what a user typed for a colour.
pub fn colour_words(colours: &str) -> (r: Vec<String>)
    ensures
        r@.len() == words_of(trim(colours@)).len(),
        forall|k: int| 0 <= k < r@.len() ==> (#[trigger] r@[k])@ == words_of(trim(colours@))[k],
{
    let cs = chars_of(colours);
    let (a, b) = trim_chars(&cs);
    split_words(&cs, a, b)
}

/// The colour stored for what a user typed: see `colour_of`.
pub fn parse_colours(colours: &str) -> (r: String)
    ensures
        r@ == colour_of(colours@),
{
    let words = colour_words(colours);
    let ghost ws = words_of(trim(colours@));
    let mut ok: Vec<bool> = Vec::new();
    let mut i: usize = 0;
    while i < words.len()
        invariant
            i <= words@.len(),
            words@.len() == ws.len(),
            forall|k: int| 0 <= k < words@.len() ==> (#[trigger] words@[k])@ == ws[k],
            ws == words_of(trim(colours@)),
            ok@ == colour_words_ok(colours@).take(i as int),
        decreases words@.len() - i,
    {
        ok.push(matches_pattern(COLOUR_WORD, words[i].as_str()));
        i = i + 1;
        assert(ok@ =~= colour_words_ok(colours@).take(i as int));
    }
    assert(colour_words_ok(colours@).take(ws.len() as int) =~= colour_words_ok(colours@));
    combine_colours(colours, &ok)
}

/// The colour stored for what a user typed, given for each of its words
/// whether it is a colour word: see `colour_with`.
pub fn combine_colours(colours: &str, word_ok: &Vec<bool>) -> (r: String)
    requires
        word_ok@.len() == words_of(trim(colours@)).len(),
    ensures
        r@ == colour_with(colours@, word_ok@),
{
    let cs = chars_of(colours);
    let (a, b) = trim_chars(&cs);
    let words = split_words(&cs, a, b);
    let ghost ws = words_of(trim(colours@));
    let mut all = true;
    let mut i: usize = 0;
    while i < words.len()
        invariant
            i <= words@.len(),
            words@.len() == ws.len(),
            word_ok@.len() == ws.len(),
            all == forall|k: int| 0 <= k < i ==> #[trigger] word_ok@[k],
        decreases words@.len() - i,
    {
        all = all && word_ok[i];
        i = i + 1;
    }
    if all && words.len() > 1 {
        let mut out = String::new();
        push_str(&mut out, GRADIENT_START);
        let ghost head = out@;
        push_str(&mut out, words[0].as_str());
        let mut k: usize = 1;
        assert(ws.take(1) =~= seq![ws[0]]);
        assert(joined(ws.take(1)) == ws[0]);
        while k < words.len()
            invariant
                1 <= k <= words@.len(),
                words@.len() == ws.len(),
                forall|j: int| 0 <= j < words@.len() ==> (#[trigger] words@[j])@ == ws[j],
                out@ == head + joined(ws.take(k as int)),
            decreases words@.len() - k,
        {
            push_str(&mut out, ",");
            push_str(&mut out, words[k].as_str());
            proof {
                reveal_strlit(",");
                assert(ws.take(k + 1).drop_last() =~= ws.take(k as int));
                assert(out@ =~= head + joined(ws.take(k + 1)));
            }
            k = k + 1;
        }
        assert(ws.take(ws.len() as int) =~= ws);
        push_str(&mut out, ")");
        proof {
            reveal_strlit(")");
            assert(out@ =~= colour_with(colours@, word_ok@));
        }
        out
    } else {
        string_of(cs.as_slice(), a, b)
    }
}

} // verus!
