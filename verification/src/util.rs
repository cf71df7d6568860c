//! Small searches on lists.

use vstd::prelude::*;
use crate::views::views;

verus! {

/// The first position at or after `i` whose item equals an earlier one.
pub open spec fn first_dupe_from<T>(s: Seq<T>, i: int) -> Option<int>
    decreases s.len() - i,
{
    if i < 0 || i >= s.len() {
        None
    } else if s.take(i).contains(s[i]) {
        Some(i)
    } else {
        first_dupe_from(s, i + 1)
    }
}

/// There is a first repeated item exactly where items repeat.
pub proof fn lemma_first_dupe<T>(s: Seq<T>, i: int)
    requires
        0 <= i <= s.len(),
        s.take(i).no_duplicates(),
    ensures
        first_dupe_from(s, i) is None <==> s.no_duplicates(),
        first_dupe_from(s, i) matches Some(k) ==> i <= k < s.len(),
    decreases s.len() - i,
{
    if i >= s.len() {
        assert(s.take(i) =~= s);
    } else if s.take(i).contains(s[i]) {
        let j = choose|j: int| 0 <= j < s.take(i).len() && s.take(i)[j] == s[i];
        assert(s[j] == s[i] && j != i);
    } else {
        let t = s.take(i + 1);
        assert forall|a: int, b: int| 0 <= a < t.len() && 0 <= b < t.len() && a != b implies t[a] != t[b] by {
            if a < i && b < i {
                assert(s.take(i)[a] != s.take(i)[b]);
            } else if a < i {
                assert(s.take(i)[a] == s[a]);
                assert(s.take(i).contains(s[a]));
            } else {
                assert(s.take(i)[b] == s[b]);
                assert(s.take(i).contains(s[b]));
            }
        }
        lemma_first_dupe(s, i + 1);
    }
}

/// The first name in `names` that an earlier name equals, if any.
pub fn find_dupe(names: &Vec<String>) -> (r: Option<String>)
    ensures
        r is None <==> views(names@).no_duplicates(),
        match r {
            Some(name) => first_dupe_from(views(names@), 0) matches Some(i) && views(names@)[i] == name@,
            None => first_dupe_from(views(names@), 0) is None,
        },
{
    let ghost vs = views(names@);
    let mut i: usize = 0;
    proof {
        lemma_first_dupe(vs, 0);
    }
    while i < names.len()
        invariant
            i <= names@.len(),
            vs == views(names@),
            first_dupe_from(vs, 0) == first_dupe_from(vs, i as int),
            first_dupe_from(vs, 0) is None <==> vs.no_duplicates(),
        decreases names@.len() - i,
    {
        let mut j: usize = 0;
        while j < i
            invariant
                j <= i < names@.len(),
                vs == views(names@),
                first_dupe_from(vs, 0) == first_dupe_from(vs, i as int),
                first_dupe_from(vs, 0) is None <==> vs.no_duplicates(),
                forall|k: int| 0 <= k < j ==> vs[k] != vs[i as int],
            decreases i - j,
        {
            if names[i] == names[j] {
                proof {
                    assert(vs.take(i as int)[j as int] == vs[i as int]);
                    assert(vs.take(i as int).contains(vs[i as int]));
                }
                return Some(names[i].clone());
            }
            j += 1;
        }
        proof {
            if vs.take(i as int).contains(vs[i as int]) {
                let k = choose|k: int| 0 <= k < vs.take(i as int).len() && vs.take(i as int)[k] == vs[i as int];
                assert(vs[k] == vs[i as int]);
            }
        }
        i += 1;
    }
    None
}

/// Whether `names` holds `name`.
pub fn contains_name(names: &Vec<String>, name: &str) -> (r: bool)
    ensures
        r == views(names@).contains(name@),
{
    let mut i: usize = 0;
    while i < names.len()
        invariant
            i <= names@.len(),
            forall|k: int| 0 <= k < i ==> views(names@)[k] != name@,
        decreases names@.len() - i,
    {
        if crate::text::str_eq(names[i].as_str(), name) {
            assert(views(names@)[i as int] == name@);
            return true;
        }
        i += 1;
    }
    false
}

/// The first position at or after `i` where `s` holds `x`, if any.
pub open spec fn index_from<T>(s: Seq<T>, x: T, i: int) -> Option<int>
    decreases s.len() - i,
{
    if i < 0 || i >= s.len() {
        None
    } else if s[i] == x {
        Some(i)
    } else {
        index_from(s, x, i + 1)
    }
}

/// The first position where `s` holds `x`, if any.
pub open spec fn index_in<T>(s: Seq<T>, x: T) -> Option<int> {
    index_from(s, x, 0)
}

/// The position of the first occurrence of `name` in `names`.
pub fn position_of(names: &Vec<String>, name: &str) -> (r: Option<usize>)
    ensures
        match r {
            Some(i) => index_in(views(names@), name@) == Some(i as int) && i < names@.len(),
            None => index_in(views(names@), name@) is None,
        },
{
    let mut i: usize = 0;
    while i < names.len()
        invariant
            i <= names@.len(),
            index_in(views(names@), name@) == index_from(views(names@), name@, i as int),
        decreases names@.len() - i,
    {
        if crate::text::str_eq(names[i].as_str(), name) {
            assert(views(names@)[i as int] == name@);
            return Some(i);
        }
        assert(views(names@)[i as int] == names@[i as int]@);
        i += 1;
    }
    None
}

} // verus!
