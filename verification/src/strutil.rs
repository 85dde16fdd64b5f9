//! Character-level string predicates the policy matchers are built on:
//! equality, prefix, suffix and substring tests, each specified over the
//! character sequence of the strings involved.
use vstd::prelude::*;

verus! {

/// The needle occurs in the haystack starting at position `i`.
pub open spec fn match_at(hay: Seq<char>, needle: Seq<char>, i: int) -> bool {
    0 <= i && i + needle.len() <= hay.len() && hay.subrange(i, i + needle.len() as int)
        == needle
}

/// The needle occurs somewhere in the haystack.
pub open spec fn has_substring(hay: Seq<char>, needle: Seq<char>) -> bool {
    exists|i: int| match_at(hay, needle, i)
}

/// Whether `p` occurs in `s` at position `i`.
fn matches_at(s: &str, p: &str, n: usize, m: usize, i: usize) -> (r: bool)
    requires
        n == s@.len(),
        m == p@.len(),
        i + m <= n,
    ensures
        r == match_at(s@, p@, i as int),
{
    let mut j: usize = 0;
    while j < m
        invariant
            n == s@.len(),
            m == p@.len(),
            i + m <= n,
            j <= m,
            forall|k: int| 0 <= k < j ==> s@[i + k] == p@[k],
        decreases m - j,
    {
        if s.get_char(i + j) != p.get_char(j) {
            assert(s@.subrange(i as int, i + m as int)[j as int] != p@[j as int]);
            return false;
        }
        j = j + 1;
    }
    proof {
        assert(s@.subrange(i as int, i + m as int) =~= p@);
    }
    true
}

/// The two strings hold the same characters.
pub fn str_eq(a: &str, b: &str) -> (r: bool)
    ensures
        r == (a@ == b@),
{
    let n = a.unicode_len();
    let m = b.unicode_len();
    if n != m {
        return false;
    }
    let mut i: usize = 0;
    while i < n
        invariant
            n == a@.len(),
            n == b@.len(),
            i <= n,
            forall|k: int| 0 <= k < i ==> a@[k] == b@[k],
        decreases n - i,
    {
        if a.get_char(i) != b.get_char(i) {
            return false;
        }
        i = i + 1;
    }
    proof {
        assert(a@ =~= b@);
    }
    true
}

/// The characters of `p` are a prefix of the characters of `s`.
pub fn str_starts_with(s: &str, p: &str) -> (r: bool)
    ensures
        r == p@.is_prefix_of(s@),
{
    let n = s.unicode_len();
    let m = p.unicode_len();
    if m > n {
        return false;
    }
    matches_at(s, p, n, m, 0)
}

/// The characters of `p` are a suffix of the characters of `s`.
pub fn str_ends_with(s: &str, p: &str) -> (r: bool)
    ensures
        r == p@.is_suffix_of(s@),
{
    let n = s.unicode_len();
    let m = p.unicode_len();
    if m > n {
        return false;
    }
    let r = matches_at(s, p, n, m, n - m);
    proof {
        assert(s@.subrange(n - m, n as int) =~= s@.skip(n - m));
    }
    r
}

/// The characters of `p` occur contiguously somewhere in `s`.
pub fn str_contains(s: &str, p: &str) -> (r: bool)
    ensures
        r == has_substring(s@, p@),
{
    let n = s.unicode_len();
    let m = p.unicode_len();
    if m > n {
        return false;
    }
    if m == 0 {
        proof {
            assert(s@.subrange(0, 0) =~= p@);
            assert(match_at(s@, p@, 0));
        }
        return true;
    }
    let mut i: usize = 0;
    while i <= n - m
        invariant
            n == s@.len(),
            m == p@.len(),
            0 < m <= n,
            i <= n - m + 1,
            forall|k: int| 0 <= k < i ==> !match_at(s@, p@, k),
        decreases n - m + 1 - i,
    {
        if matches_at(s, p, n, m, i) {
            return true;
        }
        i = i + 1;
    }
    assert forall|k: int| !match_at(s@, p@, k) by {
        if 0 <= k < i {
        } else {
            assert(!(0 <= k && k + p@.len() <= s@.len())) by {
                if k >= i {
                    assert(k + m > n);
                }
            }
        }
    }
    false
}

/// Some string in the list holds exactly the characters `x`.
pub open spec fn strs_contain(s: Seq<String>, x: Seq<char>) -> bool {
    exists|i: int| 0 <= i < s.len() && s[i]@ == x
}

/// Whether some string in the list holds exactly the characters of `x`.
pub fn contains_str(set: &Vec<String>, x: &str) -> (r: bool)
    ensures
        r == strs_contain(set@, x@),
{
    let n = set.len();
    for i in 0..n
        invariant
            n == set@.len(),
            forall|k: int| 0 <= k < i ==> set@[k]@ != x@,
    {
        if str_eq(set[i].as_str(), x) {
            return true;
        }
    }
    false
}

/// One more string at the end extends what the list contains by exactly
/// that string's characters.
pub proof fn lemma_strs_contain_take(s: Seq<String>, i: int)
    requires
        0 <= i < s.len(),
    ensures
        forall|k: Seq<char>|
            #[trigger] strs_contain(s.take(i + 1), k) <==> strs_contain(s.take(i), k) || s[i]@
                == k,
{
    assert forall|k: Seq<char>|
        #[trigger] strs_contain(s.take(i + 1), k) implies strs_contain(s.take(i), k) || s[i]@
        == k by {
        let j = choose|j: int| 0 <= j < s.take(i + 1).len() && #[trigger] s.take(i + 1)[j]@ == k;
        if j < i {
            assert(s.take(i)[j]@ == k);
        }
    }
    assert forall|k: Seq<char>| #![trigger strs_contain(s.take(i + 1), k)]
        strs_contain(s.take(i), k) || s[i]@ == k implies strs_contain(s.take(i + 1), k) by {
        if strs_contain(s.take(i), k) {
            let j = choose|j: int| 0 <= j < s.take(i).len() && #[trigger] s.take(i)[j]@ == k;
            assert(s.take(i + 1)[j]@ == k);
        } else {
            assert(s.take(i + 1)[i]@ == k);
        }
    }
}

/// Adds `x` to the list unless an equal string is already there, so the
/// list keeps behaving as a set of character sequences.
pub fn insert_str(set: &mut Vec<String>, x: &String)
    ensures
        forall|e: Seq<char>|
            strs_contain(final(set)@, e) <==> strs_contain(old(set)@, e) || e == x@,
{
    if !contains_str(set, x.as_str()) {
        let ghost before = set@;
        set.push(x.clone());
        assert forall|e: Seq<char>|
            strs_contain(set@, e) <==> strs_contain(before, e) || e == x@ by {
            if strs_contain(set@, e) {
                let i = choose|i: int| 0 <= i < set@.len() && set@[i]@ == e;
                if i < before.len() {
                    assert(before[i]@ == e);
                } else {
                    assert(e == x@);
                }
            }
            if strs_contain(before, e) {
                let i = choose|i: int| 0 <= i < before.len() && before[i]@ == e;
                assert(set@[i]@ == e);
            }
            if e == x@ {
                assert(set@[before.len() as int]@ == e);
            }
        }
    }
}

} // verus!
