use vstd::prelude::*;
use crate::chars::{
    chars_of, find_char, first_index, lemma_first_index_at, lines_of, push_from, skip_ws, split_lines, string_of,
    trim_start,
};
use crate::models::Profile;
use crate::store::ProfileStore;

verus! {

/// The character between a profile name and the text of a line.
pub const SEPARATOR: char = ';';

/// The most segments sent for one message.
pub const MAX_SENDS: usize = 10;

/// One part of a message, to be sent under one profile.
#[derive(Debug)]
pub struct Segment {
    pub profile: Profile,
    pub text: String,
    /// The messages that the segment replies to: those of the message it
    /// came from, on the first segment only.
    pub replies: Option<Vec<String>>,
}

/// Where the split stands after some lines: nothing read, a segment open
/// after the finished ones, or the message found to be plain text.
pub enum SplitState {
    Start,
    Open(Seq<(Profile, Seq<char>)>, Profile, Seq<char>),
    Plain,
}

/// The name before the first separator of a line, and the text after it
/// without leading white space.
pub open spec fn switch_parts(line: Seq<char>) -> Option<(Seq<char>, Seq<char>)> {
    if line.contains(SEPARATOR) {
        let k = first_index(line, SEPARATOR);
        Some((line.take(k), trim_start(line.skip(k + 1))))
    } else {
        None
    }
}

/// The profile that a line switches to, with the text it begins: only a
/// name that `user` holds as a profile switches.
pub open spec fn switch_of(store: ProfileStore, user: Seq<char>, line: Seq<char>) -> Option<(Profile, Seq<char>)> {
    match switch_parts(line) {
        Some((name, rest)) => match store.profile(user, name) {
            Some(p) => Some((p, rest)),
            None => None,
        },
        None => None,
    }
}

/// One line read: a switch closes the open segment and opens one for its
/// profile; another line joins the open segment, and with none open the
/// message is plain text for good.
pub open spec fn split_step(st: SplitState, switch: Option<(Profile, Seq<char>)>, line: Seq<char>) -> SplitState {
    match switch {
        Some((p, rest)) => match st {
            SplitState::Start => SplitState::Open(Seq::empty(), p, rest),
            SplitState::Open(done, q, t) => SplitState::Open(done.push((q, t)), p, rest),
            SplitState::Plain => SplitState::Plain,
        },
        None => match st {
            SplitState::Start => SplitState::Plain,
            SplitState::Open(done, q, t) => SplitState::Open(done, q, t + seq!['\n'] + line),
            SplitState::Plain => SplitState::Plain,
        },
    }
}

pub open spec fn split_state(store: ProfileStore, user: Seq<char>, lines: Seq<Seq<char>>) -> SplitState
    decreases lines.len(),
{
    if lines.len() == 0 {
        SplitState::Start
    } else {
        split_step(
            split_state(store, user, lines.drop_last()),
            switch_of(store, user, lines.last()),
            lines.last(),
        )
    }
}

/// The segments of a message of `user`, in order: none where the message is
/// not written under profiles.
pub open spec fn segments_of(store: ProfileStore, user: Seq<char>, content: Seq<char>) -> Seq<(Profile, Seq<char>)> {
    match split_state(store, user, lines_of(content)) {
        SplitState::Open(done, q, t) => done.push((q, t)),
        _ => Seq::empty(),
    }
}

pub open spec fn segments_match(r: Seq<Segment>, s: Seq<(Profile, Seq<char>)>) -> bool {
    &&& r.len() == s.len()
    &&& forall|k: int| 0 <= k < r.len() ==> (#[trigger] r[k]).profile == s[k].0 && r[k].text@ == s[k].1
}

proof fn lemma_plain_stays(store: ProfileStore, user: Seq<char>, lines: Seq<Seq<char>>, i: int)
    requires
        0 <= i <= lines.len(),
        split_state(store, user, lines.take(i)) is Plain,
    ensures
        split_state(store, user, lines) is Plain,
    decreases lines.len(),
{
    if lines.len() == i {
        assert(lines.take(i) =~= lines);
    } else {
        assert(lines.drop_last().take(i) =~= lines.take(i));
        lemma_plain_stays(store, user, lines.drop_last(), i);
    }
}

fn switch_line(store: &ProfileStore, user_id: &str, line: &Vec<char>) -> (r: Option<(Profile, Vec<char>)>)
    requires
        store.wf(),
    ensures
        match switch_of(*store, user_id@, line@) {
            Some((p, rest)) => r matches Some(x) && x.0 == p && x.1@ == rest,
            None => r is None,
        },
{
    let n = line.len();
    assert(line@.subrange(0, n as int) =~= line@);
    match find_char(line.as_slice(), SEPARATOR, 0, n) {
        None => {
            assert(!line@.contains(SEPARATOR));
            None
        },
        Some(k) => {
            proof {
                lemma_first_index_at(line@, SEPARATOR, k as int);
            }
            let name = string_of(line.as_slice(), 0, k);
            assert(name@ =~= line@.take(k as int));
            match store.get_profile(user_id, name.as_str()) {
                None => None,
                Some(p) => {
                    assert(k < n);
                    let start = skip_ws(line.as_slice(), k + 1);
                    let mut rest: Vec<char> = Vec::new();
                    push_from(&mut rest, line.as_slice(), start);
                    assert(rest@ =~= trim_start(line@.skip(k + 1)));
                    Some((p, rest))
                },
            }
        },
    }
}

/// Splits a message of `author_id` into segments, one per line that names
/// one of the author's profiles before a separator; the lines after such a
/// line, up to the next one, join its segment. A message whose first line
/// names no profile has no segments, nor has a message without text. The
/// first segment replies to what the message replied to; the others reply
/// to nothing.
pub fn extract_masq_messages(
    store: &ProfileStore,
    author_id: &str,
    content: Option<&str>,
    replies: Option<Vec<String>>,
) -> (r: Vec<Segment>)
    requires
        store.wf(),
    ensures
        match content {
            Some(c) => segments_match(r@, segments_of(*store, author_id@, c@)),
            None => r@.len() == 0,
        },
        r@.len() > 0 ==> r@[0].replies == replies,
        forall|k: int| 1 <= k < r@.len() ==> (#[trigger] r@[k]).replies is None,
{
    let mut segments = match content {
        Some(c) => split_message(store, author_id, c),
        None => Vec::new(),
    };
    if segments.len() > 0 {
        let ghost before = segments@;
        let mut first = segments.remove(0);
        first.replies = replies;
        segments.insert(0, first);
        proof {
            assert forall|k: int| 1 <= k < segments@.len() implies (#[trigger] segments@[k]) == before[k] by {}
        }
    }
    segments
}

/// Splits the text of a message of `author_id` into segments.
#[verifier::rlimit(40)]
pub fn split_message(store: &ProfileStore, author_id: &str, content: &str) -> (r: Vec<Segment>)
    requires
        store.wf(),
    ensures
        segments_match(r@, segments_of(*store, author_id@, content@)),
        forall|k: int| 0 <= k < r@.len() ==> (#[trigger] r@[k]).replies is None,
{
    let cs = chars_of(content);
    let lines = split_lines(cs.as_slice());
    let ghost all = lines_of(content@);
    let mut done: Vec<Segment> = Vec::new();
    let mut cur: Option<(Profile, Vec<char>)> = None;
    let mut i: usize = 0;
    while i < lines.len()
        invariant
            i <= lines@.len(),
            store.wf(),
            all == lines_of(content@),
            lines@.len() == all.len(),
            forall|k: int| 0 <= k < lines@.len() ==> (#[trigger] lines@[k])@ == all[k],
            forall|k: int| 0 <= k < done@.len() ==> (#[trigger] done@[k]).replies is None,
            match split_state(*store, author_id@, all.take(i as int)) {
                SplitState::Start => cur is None && done@.len() == 0,
                SplitState::Open(d, q, t) => cur matches Some(x) && x.0 == q && x.1@ == t
                    && segments_match(done@, d),
                SplitState::Plain => false,
            },
        decreases lines@.len() - i,
    {
        let line = &lines[i];
        proof {
            assert(all.take(i + 1).drop_last() =~= all.take(i as int));
            assert(all.take(i + 1).last() == all[i as int]);
            assert(split_state(*store, author_id@, all.take(i + 1)) == split_step(
                split_state(*store, author_id@, all.take(i as int)),
                switch_of(*store, author_id@, all[i as int]),
                all[i as int],
            ));
        }
        match switch_line(store, author_id, line) {
            Some((p, rest)) => {
                match cur {
                    Some((q, t)) => {
                        let text = string_of(t.as_slice(), 0, t.len());
                        assert(text@ =~= t@);
                        done.push(Segment { profile: q, text, replies: None });
                    },
                    None => {},
                }
                cur = Some((p, rest));
            },
            None => {
                match cur {
                    Some((q, t)) => {
                        let mut t = t;
                        t.push('\n');
                        push_from(&mut t, line.as_slice(), 0);
                        assert(line@.subrange(0, line@.len() as int) =~= line@);
                        cur = Some((q, t));
                    },
                    None => {
                        proof {
                            lemma_plain_stays(*store, author_id@, all, i + 1);
                            assert(segments_of(*store, author_id@, content@) =~= Seq::<(Profile, Seq<char>)>::empty());
                        }
                        return Vec::new();
                    },
                }
            },
        }
        i = i + 1;
    }
    assert(all.take(lines@.len() as int) =~= all);
    let ghost d0 = done@;
    match cur {
        Some((q, t)) => {
            let text = string_of(t.as_slice(), 0, t.len());
            assert(text@ =~= t@);
            done.push(Segment { profile: q, text, replies: None });
            proof {
                let st = split_state(*store, author_id@, all);
                if let SplitState::Open(d, q1, t1) = st {
                    let want = d.push((q1, t1));
                    assert forall|k: int| 0 <= k < done@.len() implies (#[trigger] done@[k]).profile == want[k].0 && done@[k].text@ == want[k].1 by {
                        if k < d0.len() {
                            assert(done@[k] == d0[k]);
                        }
                    }
                }
            }
        },
        None => {},
    }
    done
}

/// The segments that are sent: the first ones, up to the most sent for one
/// message.
pub fn sendable(segments: Vec<Segment>) -> (r: Vec<Segment>)
    ensures
        r@ == segments@.take(if segments@.len() < MAX_SENDS { segments@.len() as int } else { MAX_SENDS as int }),
{
    let mut segments = segments;
    segments.truncate(MAX_SENDS);
    segments
}

} // verus!
