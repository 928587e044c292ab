use vstd::prelude::*;
use crate::models::Profile;
use crate::text::{
    bytes_lt, lemma_bytes_lt_irreflexive, lemma_bytes_lt_total, lemma_bytes_lt_transitive,
    lemma_text_key_injective, str_lt, text_key,
};

verus! {

/// The key by which a user's profiles are ordered.
pub open spec fn name_key(p: Profile) -> Seq<u8> {
    text_key(p.name@)
}

/// Names strictly increase along the list.
pub open spec fn sorted_by_name(s: Seq<Profile>) -> bool {
    forall|i: int, j: int| 0 <= i < j < s.len() ==> bytes_lt(#[trigger] name_key(s[i]), #[trigger] name_key(s[j]))
}

/// The place of an entry of the list with the given name, where one exists.
pub open spec fn name_index(s: Seq<Profile>, name: Seq<char>) -> int {
    choose|i: int| 0 <= i < s.len() && s[i].name@ == name
}

/// The profile of the list that has the given name, if any.
pub open spec fn lookup(s: Seq<Profile>, name: Seq<char>) -> Option<Profile> {
    if exists|i: int| 0 <= i < s.len() && s[i].name@ == name {
        Some(s[name_index(s, name)])
    } else {
        None
    }
}

/// `t` is the sorted list `s` with `p` written in: `p` replaces the profile of
/// the same name, or joins the list.
pub open spec fn upserted(s: Seq<Profile>, p: Profile, t: Seq<Profile>) -> bool {
    &&& sorted_by_name(t)
    &&& forall|q: Profile| #[trigger] t.contains(q) <==> ((s.contains(q) && q.name@ != p.name@) || q == p)
}

/// `t` is the sorted list `s` without the profile of the given name.
pub open spec fn removed(s: Seq<Profile>, name: Seq<char>, t: Seq<Profile>) -> bool {
    &&& sorted_by_name(t)
    &&& forall|q: Profile| #[trigger] t.contains(q) <==> (s.contains(q) && q.name@ != name)
}

/// In a sorted list no two profiles share a name.
pub proof fn lemma_sorted_names_distinct(s: Seq<Profile>, i: int, j: int)
    requires
        sorted_by_name(s),
        0 <= i < s.len(),
        0 <= j < s.len(),
        i != j,
    ensures
        s[i].name@ != s[j].name@,
{
    lemma_text_key_injective(s[i].name@, s[j].name@);
    if i < j {
        assert(bytes_lt(name_key(s[i]), name_key(s[j])));
        lemma_bytes_lt_irreflexive(name_key(s[i]));
    } else {
        assert(bytes_lt(name_key(s[j]), name_key(s[i])));
        lemma_bytes_lt_irreflexive(name_key(s[j]));
    }
}

/// Looking up the name of an entry of a sorted list finds that entry.
pub proof fn lemma_lookup_at(s: Seq<Profile>, i: int)
    requires
        sorted_by_name(s),
        0 <= i < s.len(),
    ensures
        lookup(s, s[i].name@) == Some(s[i]),
{
    let name = s[i].name@;
    assert(0 <= i < s.len() && s[i].name@ == name);
    assert(exists|k: int| 0 <= k < s.len() && s[k].name@ == name);
    let k = name_index(s, name);
    if k != i {
        lemma_sorted_names_distinct(s, i, k);
    }
    assert(k == i);
    assert(lookup(s, name) == Some(s[k]));
}

/// Looking up a name that a list holds in some entry finds that entry.
pub proof fn lemma_lookup_contains(s: Seq<Profile>, p: Profile)
    requires
        sorted_by_name(s),
        s.contains(p),
    ensures
        lookup(s, p.name@) == Some(p),
{
    let i = choose|i: int| 0 <= i < s.len() && s[i] == p;
    lemma_lookup_at(s, i);
}

/// Where the profile named `name` stands in the sorted list, or where it
/// would be inserted.
pub(crate) fn find_position(s: &Vec<Profile>, name: &String) -> (r: (usize, bool))
    requires
        sorted_by_name(s@),
    ensures
        r.0 <= s@.len(),
        forall|j: int| 0 <= j < r.0 ==> bytes_lt(#[trigger] name_key(s@[j]), text_key(name@)),
        r.1 ==> r.0 < s@.len() && s@[r.0 as int].name@ == name@,
        !r.1 ==> r.0 < s@.len() ==> bytes_lt(text_key(name@), name_key(s@[r.0 as int])),
        !r.1 ==> forall|j: int| 0 <= j < s@.len() ==> (#[trigger] s@[j]).name@ != name@,
{
    let mut i: usize = 0;
    while i < s.len() && str_lt(s[i].name.as_str(), name.as_str())
        invariant
            i <= s@.len(),
            forall|j: int| 0 <= j < i ==> bytes_lt(#[trigger] name_key(s@[j]), text_key(name@)),
        decreases s@.len() - i,
    {
        i = i + 1;
    }
    if i < s.len() && s[i].name == *name {
        return (i, true);
    }
    proof {
        if i < s@.len() {
            lemma_text_key_injective(s@[i as int].name@, name@);
            lemma_bytes_lt_total(text_key(name@), name_key(s@[i as int]));
        }
        assert forall|j: int| 0 <= j < s@.len() implies (#[trigger] s@[j]).name@ != name@ by {
            lemma_text_key_injective(s@[j].name@, name@);
            if j < i {
                assert(bytes_lt(name_key(s@[j]), text_key(name@)));
                lemma_bytes_lt_irreflexive(text_key(name@));
            } else {
                if j > i {
                    lemma_bytes_lt_transitive(text_key(name@), name_key(s@[i as int]), name_key(s@[j]));
                }
                lemma_bytes_lt_irreflexive(text_key(name@));
            }
        }
    }
    (i, false)
}

/// Writes `p` into the sorted list: it replaces the profile of the same
/// name, or is inserted where its name belongs.
pub fn upsert_sorted(s: &mut Vec<Profile>, p: Profile)
    requires
        sorted_by_name(old(s)@),
    ensures
        upserted(old(s)@, p, final(s)@),
{
    let ghost s0 = s@;
    let (pos, found) = find_position(s, &p.name);
    if found {
        s.set(pos, p);
        proof {
            assert forall|i: int, j: int| 0 <= i < j < s@.len() implies bytes_lt(
                #[trigger] name_key(s@[i]),
                #[trigger] name_key(s@[j]),
            ) by {
                assert(name_key(s0[i]) == name_key(s@[i]) || i == pos);
                assert(name_key(s0[j]) == name_key(s@[j]) || j == pos);
                assert(bytes_lt(name_key(s0[i]), name_key(s0[j])));
            }
            assert forall|q: Profile| #[trigger] s@.contains(q) <==> ((s0.contains(q) && q.name@ != p.name@) || q == p) by {
                if s@.contains(q) && q != p {
                    let k = choose|k: int| 0 <= k < s@.len() && s@[k] == q;
                    assert(s0[k] == q);
                    if q.name@ == p.name@ {
                        lemma_sorted_names_distinct(s0, k, pos as int);
                    }
                }
                if s0.contains(q) && q.name@ != p.name@ {
                    let k = choose|k: int| 0 <= k < s0.len() && s0[k] == q;
                    assert(s@[k] == q);
                }
                if q == p {
                    assert(s@[pos as int] == p);
                }
            }
        }
    } else {
        s.insert(pos, p);
        proof {
            assert forall|i: int, j: int| 0 <= i < j < s@.len() implies bytes_lt(
                #[trigger] name_key(s@[i]),
                #[trigger] name_key(s@[j]),
            ) by {
                if i < pos && j < pos {
                    assert(s@[i] == s0[i] && s@[j] == s0[j]);
                } else if i < pos && j == pos {
                    assert(s@[i] == s0[i]);
                } else if i < pos {
                    assert(s@[i] == s0[i] && s@[j] == s0[j - 1]);
                    assert(bytes_lt(name_key(s0[i]), text_key(p.name@)));
                    lemma_bytes_lt_transitive(name_key(s0[i]), text_key(p.name@), name_key(s0[pos as int]));
                    if j - 1 > pos {
                        lemma_bytes_lt_transitive(name_key(s0[i]), name_key(s0[pos as int]), name_key(s0[j - 1]));
                    }
                } else if i == pos {
                    assert(s@[j] == s0[j - 1]);
                    if j - 1 > pos {
                        lemma_bytes_lt_transitive(text_key(p.name@), name_key(s0[pos as int]), name_key(s0[j - 1]));
                    }
                } else {
                    assert(s@[i] == s0[i - 1] && s@[j] == s0[j - 1]);
                }
            }
            assert forall|q: Profile| #[trigger] s@.contains(q) <==> ((s0.contains(q) && q.name@ != p.name@) || q == p) by {
                if s@.contains(q) && q != p {
                    let k = choose|k: int| 0 <= k < s@.len() && s@[k] == q;
                    if k < pos {
                        assert(s0[k] == q);
                    } else {
                        assert(k != pos);
                        assert(s0[k - 1] == q);
                    }
                }
                if s0.contains(q) {
                    let k = choose|k: int| 0 <= k < s0.len() && s0[k] == q;
                    if k < pos {
                        assert(s@[k] == q);
                    } else {
                        assert(s@[k + 1] == q);
                    }
                }
                if q == p {
                    assert(s@[pos as int] == p);
                }
            }
        }
    }
}

/// Takes the profile of the given name out of the sorted list, and returns
/// it if there was one.
pub fn remove_named(s: &mut Vec<Profile>, name: &String) -> (r: Option<Profile>)
    requires
        sorted_by_name(old(s)@),
    ensures
        r == lookup(old(s)@, name@),
        removed(old(s)@, name@, final(s)@),
{
    let ghost s0 = s@;
    let (pos, found) = find_position(s, name);
    if found {
        let q = s.remove(pos);
        proof {
            lemma_lookup_at(s0, pos as int);
            assert forall|i: int, j: int| 0 <= i < j < s@.len() implies bytes_lt(
                #[trigger] name_key(s@[i]),
                #[trigger] name_key(s@[j]),
            ) by {
                if i < pos && j < pos {
                    assert(s@[i] == s0[i] && s@[j] == s0[j]);
                } else if i < pos {
                    assert(s@[i] == s0[i] && s@[j] == s0[j + 1]);
                } else {
                    assert(s@[i] == s0[i + 1] && s@[j] == s0[j + 1]);
                }
            }
            assert forall|q2: Profile| #[trigger] s@.contains(q2) <==> (s0.contains(q2) && q2.name@ != name@) by {
                if s@.contains(q2) {
                    let k = choose|k: int| 0 <= k < s@.len() && s@[k] == q2;
                    if k < pos {
                        assert(s0[k] == q2);
                        lemma_sorted_names_distinct(s0, k, pos as int);
                    } else {
                        assert(s0[k + 1] == q2);
                        lemma_sorted_names_distinct(s0, k + 1, pos as int);
                    }
                }
                if s0.contains(q2) && q2.name@ != name@ {
                    let k = choose|k: int| 0 <= k < s0.len() && s0[k] == q2;
                    assert(k != pos);
                    if k < pos {
                        assert(s@[k] == q2);
                    } else {
                        assert(s@[k - 1] == q2);
                    }
                }
            }
        }
        Some(q)
    } else {
        proof {
            assert forall|q2: Profile| #[trigger] s@.contains(q2) <==> (s0.contains(q2) && q2.name@ != name@) by {
                if s0.contains(q2) {
                    let k = choose|k: int| 0 <= k < s0.len() && s0[k] == q2;
                    assert(s0[k].name@ != name@);
                }
            }
        }
        None
    }
}

/// A write into a sorted list keeps its length where the name was there, and
/// adds one where it was new.
pub proof fn lemma_upserted_len(s: Seq<Profile>, p: Profile, t: Seq<Profile>)
    requires
        sorted_by_name(s),
        upserted(s, p, t),
    ensures
        lookup(s, p.name@) is Some ==> t.len() == s.len(),
        lookup(s, p.name@) is None ==> t.len() == s.len() + 1,
{
    broadcast use vstd::set::group_set_axioms, vstd::seq_lib::seq_to_set_is_finite;

    assert(s.no_duplicates()) by {
        assert forall|i: int, j: int| 0 <= i < s.len() && 0 <= j < s.len() && i != j implies s[i] != s[j] by {
            lemma_sorted_names_distinct(s, i, j);
        }
    }
    assert(t.no_duplicates()) by {
        assert forall|i: int, j: int| 0 <= i < t.len() && 0 <= j < t.len() && i != j implies t[i] != t[j] by {
            lemma_sorted_names_distinct(t, i, j);
        }
    }
    s.unique_seq_to_set();
    t.unique_seq_to_set();
    if exists|i: int| 0 <= i < s.len() && s[i].name@ == p.name@ {
        let k = name_index(s, p.name@);
        let q = s[k];
        assert(s.contains(q));
        assert forall|x: Profile| t.to_set().contains(x) <==> s.to_set().remove(q).insert(p).contains(x) by {
            if s.contains(x) && x.name@ == p.name@ {
                let m = choose|m: int| 0 <= m < s.len() && s[m] == x;
                if m != k {
                    lemma_sorted_names_distinct(s, m, k);
                }
            }
        }
        assert(t.to_set() =~= s.to_set().remove(q).insert(p));
        if s.contains(p) {
            let m = choose|m: int| 0 <= m < s.len() && s[m] == p;
            if m != k {
                lemma_sorted_names_distinct(s, m, k);
            }
        }
    } else {
        assert(!s.contains(p)) by {
            if s.contains(p) {
                let m = choose|m: int| 0 <= m < s.len() && s[m] == p;
                assert(s[m].name@ == p.name@);
            }
        }
        assert(t.to_set() =~= s.to_set().insert(p));
    }
}

} // verus!
