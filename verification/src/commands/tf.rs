//! Paths into a Terraform plan, as the single-line report prints them.
use vstd::prelude::*;

use crate::text::{chars_of, string_from_chars};

verus! {

/// The marker that separates the resource half of a plan path from its property half.
pub open spec fn after_marker() -> Seq<char> {
    seq!['c', 'h', 'a', 'n', 'g', 'e', '/', 'a', 'f', 't', 'e', 'r', '/']
}

/// Whether `pat` occurs in `s` starting at `i`.
pub open spec fn occurs_at(s: Seq<char>, pat: Seq<char>, i: int) -> bool {
    0 <= i && i + pat.len() <= s.len() && s.subrange(i, i + pat.len()) =~= pat
}

/// The first place at or after `from` where `pat` occurs in `s`.
pub open spec fn first_occurrence_from(s: Seq<char>, pat: Seq<char>, from: int) -> Option<int>
    decreases s.len() - from,
{
    if from < 0 || from + pat.len() > s.len() {
        None
    } else if occurs_at(s, pat, from) {
        Some(from)
    } else {
        first_occurrence_from(s, pat, from + 1)
    }
}

/// `s` with every `/` made a `.`.
pub open spec fn slashes_to_dots(s: Seq<char>) -> Seq<char> {
    s.map_values(|c: char| if c == '/' { '.' } else { c })
}

/// The property half of a plan path: what follows the first `change/after/`, with its `/`
/// separators printed as `.`; nothing when the path has no such marker.
pub open spec fn property_part(path: Seq<char>) -> Seq<char> {
    match first_occurrence_from(path, after_marker(), 0) {
        Some(at) => slashes_to_dots(path.subrange(at + after_marker().len(), path.len() as int)),
        None => Seq::empty(),
    }
}

/// What `first_occurrence_from` finds is an occurrence, and the earliest one from `from` on.
pub proof fn lemma_first_occurrence_is_least(s: Seq<char>, pat: Seq<char>, from: int)
    requires
        0 <= from,
    ensures
        first_occurrence_from(s, pat, from) matches Some(at) ==> {
            &&& from <= at
            &&& occurs_at(s, pat, at)
            &&& forall|j: int| from <= j < at ==> !occurs_at(s, pat, j)
        },
        first_occurrence_from(s, pat, from) is None ==> forall|j: int|
            from <= j ==> !occurs_at(s, pat, j),
    decreases s.len() - from,
{
    if from + pat.len() > s.len() {
    } else if occurs_at(s, pat, from) {
    } else {
        lemma_first_occurrence_is_least(s, pat, from + 1);
    }
}

/// Whether `pat` occurs in `s` at `i`, checking character by character.
fn matches_at(s: &Vec<char>, pat: &Vec<char>, i: usize) -> (r: bool)
    requires
        i + pat@.len() <= s@.len(),
    ensures
        r == occurs_at(s@, pat@, i as int),
{
    let n = s.len();
    let mut k: usize = 0;
    while k < pat.len()
        invariant
            n == s@.len(),
            k <= pat@.len(),
            i + pat@.len() <= s@.len(),
            forall|j: int| 0 <= j < k ==> s@[i + j] == pat@[j],
        decreases pat.len() - k,
    {
        assert(i + k < s@.len());
        if s[i + k] != pat[k] {
            assert(s@.subrange(i as int, i + pat@.len())[k as int] != pat@[k as int]);
            return false;
        }
        k += 1;
    }
    assert(s@.subrange(i as int, i + pat@.len()) =~= pat@);
    true
}

/// Where `pat` first occurs in `s`, if it does.
fn find_first(s: &Vec<char>, pat: &Vec<char>) -> (r: Option<usize>)
    ensures
        r matches Some(i) ==> first_occurrence_from(s@, pat@, 0) == Some(i as int),
        r is None ==> first_occurrence_from(s@, pat@, 0) is None,
{
    if pat.len() > s.len() {
        return None;
    }
    let mut i: usize = 0;
    while pat.len() <= s.len() - i
        invariant
            i <= s@.len(),
            first_occurrence_from(s@, pat@, 0) == first_occurrence_from(s@, pat@, i as int),
        decreases s.len() - i,
    {
        if matches_at(s, pat, i) {
            return Some(i);
        }
        assert(pat@.len() > 0) by {
            if pat@.len() == 0 {
                assert(s@.subrange(i as int, i as int) =~= pat@);
            }
        }
        i += 1;
    }
    None
}

/// Where `pat` first occurs in `s` at or after `from`, if it does.
pub(crate) fn find_from(s: &Vec<char>, pat: &Vec<char>, from: usize) -> (r: Option<usize>)
    ensures
        r matches Some(i) ==> first_occurrence_from(s@, pat@, from as int) == Some(i as int),
        r is None ==> first_occurrence_from(s@, pat@, from as int) is None,
{
    if from > s.len() || pat.len() > s.len() - from {
        return None;
    }
    let mut i: usize = from;
    while pat.len() <= s.len() - i
        invariant
            from <= i <= s@.len(),
            first_occurrence_from(s@, pat@, from as int) == first_occurrence_from(s@, pat@, i as int),
        decreases s.len() - i,
    {
        if matches_at(s, pat, i) {
            return Some(i);
        }
        assert(pat@.len() > 0) by {
            if pat@.len() == 0 {
                assert(s@.subrange(i as int, i as int) =~= pat@);
            }
        }
        i += 1;
    }
    None
}

/// The property half of the plan path `path`, as the single-line Terraform report prints it.
///
/// A finding's path is `/resource_changes/<n>/change/after/<property>`, and the resource half is
/// the heading it is printed under, so only the property half belongs on its line, dotted. A path
/// with no `change/after/` in it, such as one on `type` or `address`, keeps nothing.
pub fn property_of(path: &str) -> (r: String)
    ensures
        r@ == property_part(path@),
        forall|k: int| 0 <= k < r@.len() ==> r@[k] != '/',
{
    let cs = chars_of(path);
    let marker = chars_of("change/after/");
    proof {
        reveal_strlit("change/after/");
        assert(marker@ =~= after_marker());
    }
    let mut out: Vec<char> = Vec::new();
    match find_first(&cs, &marker) {
        Some(at) => {
            let n = cs.len();
            proof {
                lemma_first_occurrence_is_least(cs@, marker@, 0);
            }
            let start = at + marker.len();
            let mut i: usize = start;
            while i < cs.len()
                invariant
                    cs@ == path@,
                    start <= i <= cs@.len(),
                    out@ =~= slashes_to_dots(cs@.subrange(start as int, i as int)),
                decreases cs.len() - i,
            {
                if cs[i] == '/' {
                    out.push('.');
                } else {
                    out.push(cs[i]);
                }
                i += 1;
            }
        },
        None => {},
    }
    string_from_chars(&out)
}

} // verus!
