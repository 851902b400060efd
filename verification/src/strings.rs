//! Character-level string operations: substring search, lexicographic
//! order and sorting of names.

use vstd::prelude::*;

verus! {

broadcast use vstd::string::group_string_axioms;

/// The characters of a string.
pub fn chars_of(s: &str) -> (cs: Vec<char>)
    ensures
        cs@ == s@,
{
    let mut cs: Vec<char> = Vec::new();
    for c in it: s.chars()
        invariant
            cs@ == it.seq().take(it.index() as int),
    {
        proof {
            assert(it.seq().take(it.index() as int + 1) =~= cs@.push(c));
        }
        cs.push(c);
    }
    proof {
        assert(cs@ =~= s@);
    }
    cs
}

/// Whether `needle` occurs in `hay` at position `i`.
pub open spec fn occurs_at(hay: Seq<char>, needle: Seq<char>, i: int) -> bool {
    0 <= i && i + needle.len() <= hay.len() && hay.subrange(i, i + needle.len()) == needle
}

/// Whether `needle` occurs somewhere in `hay`.
pub open spec fn occurs_in(hay: Seq<char>, needle: Seq<char>) -> bool {
    exists|i: int| occurs_at(hay, needle, i)
}

fn matches_at(hay: &Vec<char>, needle: &Vec<char>, i: usize) -> (b: bool)
    requires
        i + needle@.len() <= hay@.len(),
    ensures
        b == occurs_at(hay@, needle@, i as int),
{
    let hl = hay.len();
    let mut j: usize = 0;
    while j < needle.len()
        invariant
            hl == hay@.len(),
            i + needle@.len() <= hay@.len(),
            j <= needle@.len(),
            forall|k: int| 0 <= k < j ==> hay@[i + k] == needle@[k],
        decreases needle@.len() - j,
    {
        if hay[i + j] != needle[j] {
            proof {
                assert(hay@.subrange(i as int, i + needle@.len())[j as int] != needle@[j as int]);
            }
            return false;
        }
        j = j + 1;
    }
    proof {
        assert(hay@.subrange(i as int, i + needle@.len()) =~= needle@);
    }
    true
}

/// Whether `needle` occurs in `hay`, as `str::contains` answers.
pub fn contains_str(hay: &str, needle: &str) -> (b: bool)
    ensures
        b == occurs_in(hay@, needle@),
{
    let h = chars_of(hay);
    let n = chars_of(needle);
    if n.len() == 0 {
        proof {
            assert(occurs_at(hay@, needle@, 0)) by {
                assert(hay@.subrange(0, 0) =~= needle@);
            }
        }
        return true;
    }
    if n.len() > h.len() {
        proof {
            assert forall|i: int| !occurs_at(hay@, needle@, i) by {}
        }
        return false;
    }
    let hl = h.len();
    let last = hl - n.len();
    let mut i: usize = 0;
    while i <= last
        invariant
            hl == h@.len(),
            last < hl,
            last == h@.len() - n@.len(),
            h@ == hay@,
            n@ == needle@,
            i <= last + 1,
            forall|k: int| 0 <= k < i ==> !occurs_at(hay@, needle@, k),
        decreases last + 1 - i,
    {
        if matches_at(&h, &n, i) {
            return true;
        }
        i = i + 1;
    }
    proof {
        assert forall|k: int| !occurs_at(hay@, needle@, k) by {
            if 0 <= k < i {
            }
        }
    }
    false
}

/// Strict lexicographic order of character sequences (by code point), the order of `String`.
pub open spec fn lex_lt(a: Seq<char>, b: Seq<char>) -> bool
    decreases a.len(),
{
    if a.len() == 0 {
        b.len() > 0
    } else if b.len() == 0 {
        false
    } else if a[0] != b[0] {
        (a[0] as int) < (b[0] as int)
    } else {
        lex_lt(a.drop_first(), b.drop_first())
    }
}

/// `lex_lt` never holds both ways, and one way holds between different sequences.
pub proof fn lemma_lex_total(a: Seq<char>, b: Seq<char>)
    ensures
        !(lex_lt(a, b) && lex_lt(b, a)),
        a != b ==> lex_lt(a, b) || lex_lt(b, a),
        !lex_lt(a, a),
    decreases a.len(),
{
    if a.len() > 0 && b.len() > 0 {
        lemma_lex_total(a.drop_first(), b.drop_first());
        lemma_lex_total(a.drop_first(), a.drop_first());
        if a[0] == b[0] && a.drop_first() == b.drop_first() {
            assert forall|k: int| 0 <= k < a.len() implies a[k] == b[k] by {
                if k > 0 {
                    assert(a[k] == a.drop_first()[k - 1]);
                    assert(b[k] == b.drop_first()[k - 1]);
                }
            }
            assert(a =~= b);
        }
        if a[0] != b[0] {
            assert((a[0] as int) != (b[0] as int));
        }
    } else if a.len() == 0 && b.len() == 0 {
        assert(a =~= b);
    } else if a.len() > 0 {
        lemma_lex_total(a.drop_first(), a.drop_first());
    }
}

/// `lex_lt` is transitive.
pub proof fn lemma_lex_transitive(a: Seq<char>, b: Seq<char>, c: Seq<char>)
    requires
        lex_lt(a, b),
        lex_lt(b, c),
    ensures
        lex_lt(a, c),
    decreases a.len(),
{
    if a.len() > 0 && b.len() > 0 && c.len() > 0 {
        if a[0] == b[0] && b[0] == c[0] {
            lemma_lex_transitive(a.drop_first(), b.drop_first(), c.drop_first());
        }
    }
}

/// Whether `a` comes strictly before `b` in lexicographic order.
pub fn lex_less(a: &Vec<char>, b: &Vec<char>) -> (r: bool)
    ensures
        r == lex_lt(a@, b@),
{
    let mut i: usize = 0;
    proof {
        assert(a@.skip(0) =~= a@);
        assert(b@.skip(0) =~= b@);
    }
    while i < a.len() && i < b.len()
        invariant
            i <= a@.len(),
            i <= b@.len(),
            forall|k: int| 0 <= k < i ==> a@[k] == b@[k],
            lex_lt(a@, b@) == lex_lt(a@.skip(i as int), b@.skip(i as int)),
        decreases a@.len() - i,
    {
        if a[i] != b[i] {
            proof {
                assert(a@.skip(i as int)[0] == a@[i as int]);
                assert(b@.skip(i as int)[0] == b@[i as int]);
            }
            return a[i] < b[i];
        }
        proof {
            assert(a@.skip(i as int).drop_first() =~= a@.skip(i as int + 1));
            assert(b@.skip(i as int).drop_first() =~= b@.skip(i as int + 1));
        }
        i = i + 1;
    }
    proof {
        if i == a@.len() {
            assert(a@.skip(i as int).len() == 0);
        } else {
            assert(b@.skip(i as int).len() == 0);
        }
    }
    i < b.len()
}

/// Whether a sequence of names is in strictly increasing order.
pub open spec fn strictly_sorted(s: Seq<Seq<char>>) -> bool {
    forall|i: int, j: int| 0 <= i < j < s.len() ==> lex_lt(#[trigger] s[i], #[trigger] s[j])
}

/// The names of a list of strings.
pub open spec fn names_of(v: Seq<String>) -> Seq<Seq<char>> {
    v.map_values(|s: String| s@)
}

/// Sorts distinct names in increasing order.
pub fn sort_names(names: Vec<String>) -> (sorted: Vec<String>)
    requires
        names_of(names@).no_duplicates(),
    ensures
        strictly_sorted(names_of(sorted@)),
        names_of(sorted@).to_set() == names_of(names@).to_set(),
        sorted@.len() == names@.len(),
{
    let mut sorted: Vec<String> = Vec::new();
    let mut keys: Vec<Vec<char>> = Vec::new();
    let mut i: usize = 0;
    while i < names.len()
        invariant
            i <= names@.len(),
            names_of(names@).no_duplicates(),
            sorted@.len() == keys@.len(),
            sorted@.len() == i,
            forall|k: int| 0 <= k < keys@.len() ==> #[trigger] keys@[k]@ == sorted@[k]@,
            strictly_sorted(names_of(sorted@)),
            names_of(sorted@).to_set() == names_of(names@.take(i as int)).to_set(),
        decreases names@.len() - i,
    {
        let name = names[i].clone();
        let key = chars_of(name.as_str());
        let mut p: usize = 0;
        while p < keys.len() && !lex_less(&key, &keys[p])
            invariant
                p <= keys@.len(),
                sorted@.len() == keys@.len(),
                forall|k: int| 0 <= k < keys@.len() ==> #[trigger] keys@[k]@ == sorted@[k]@,
                forall|k: int| 0 <= k < p ==> !lex_lt(key@, #[trigger] keys@[k]@),
            decreases keys@.len() - p,
        {
            p = p + 1;
        }
        let ghost before = names_of(sorted@);
        proof {
            if p < keys@.len() {
                assert(lex_lt(key@, before[p as int]));
            }
            assert forall|k: int| 0 <= k < p implies !lex_lt(key@, #[trigger] before[k]) by {
                assert(keys@[k]@ == before[k]);
            }
        }
        proof {
            assert(names_of(names@).contains(key@) ==> true);
            assert(names@.take(i as int + 1) =~= names@.take(i as int).push(names@[i as int]));
            assert(!before.contains(key@)) by {
                if before.contains(key@) {
                    let k = choose|k: int| 0 <= k < before.len() && before[k] == key@;
                    assert(names_of(names@.take(i as int)).to_set().contains(key@));
                    let m = choose|m: int| 0 <= m < i && names_of(names@.take(i as int))[m] == key@;
                    assert(names_of(names@)[m] == names_of(names@)[i as int]);
                }
            }
        }
        sorted.insert(p, name);
        keys.insert(p, key);
        proof {
            let after = names_of(sorted@);
            assert(after =~= before.insert(p as int, key@));
            assert forall|a: int, b: int| 0 <= a < b < after.len() implies lex_lt(#[trigger] after[a], #[trigger] after[b]) by {
                if b < p {
                    assert(after[a] == before[a]);
                    assert(after[b] == before[b]);
                    assert(lex_lt(before[a], before[b]));
                } else if a < p && b == p {
                    lemma_lex_total(before[a], key@);
                    assert(before.contains(before[a]));
                    assert(before[a] != key@);
                    assert(!lex_lt(key@, before[a]));
                    assert(after[b] == key@);
                    assert(after[a] == before[a]);
                } else if a == p && b > p {
                    assert(after[a] == key@);
                    assert(after[b] == before[b - 1]);
                    assert(lex_lt(key@, before[p as int]));
                    if b - 1 > p {
                        assert(lex_lt(before[p as int], before[b - 1]));
                        lemma_lex_transitive(key@, before[p as int], before[b - 1]);
                    }
                } else if a < p && b > p {
                    assert(after[a] == before[a]);
                    assert(after[b] == before[b - 1]);
                    assert(lex_lt(before[a], before[b - 1]));
                } else {
                    assert(after[a] == before[a - 1]);
                    assert(after[b] == before[b - 1]);
                    assert(lex_lt(before[a - 1], before[b - 1]));
                }
            }
            assert(after.to_set() =~= before.to_set().insert(key@)) by {
                assert forall|x: Seq<char>| after.contains(x) <==> before.contains(x) || x == key@ by {
                    if after.contains(x) {
                        let k = choose|k: int| 0 <= k < after.len() && after[k] == x;
                        if k < p {
                            assert(before[k] == x);
                        } else if k > p {
                            assert(before[k - 1] == x);
                        }
                    }
                    if before.contains(x) {
                        let k = choose|k: int| 0 <= k < before.len() && before[k] == x;
                        if k < p {
                            assert(after[k] == x);
                        } else {
                            assert(after[k + 1] == x);
                        }
                    }
                    if x == key@ {
                        assert(after[p as int] == x);
                    }
                }
            }
            assert(names_of(names@.take(i as int + 1)) =~= names_of(names@.take(i as int)).push(key@));
            names_of(names@.take(i as int)).lemma_push_to_set_commute(key@);
            assert forall|k: int| 0 <= k < keys@.len() implies #[trigger] keys@[k]@ == sorted@[k]@ by {
                if k < p {
                } else if k == p {
                } else {
                }
            }
        }
        i = i + 1;
    }
    proof {
        assert(names@.take(i as int) =~= names@);
    }
    sorted
}

} // verus!
