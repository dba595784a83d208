//! The short name of a repository, taken from its remote URL.

use vstd::prelude::*;
use crate::text::{chars_of, string_of};

verus! {

/// The number of `/` characters in `s`.
pub open spec fn slash_count(s: Seq<char>) -> nat
    decreases s.len(),
{
    if s.len() == 0 {
        0
    } else {
        (if s[0] == '/' {
            1nat
        } else {
            0nat
        }) + slash_count(s.drop_first())
    }
}

/// Whether the last two `/`-separated components of `s` start at index `k`: the rest
/// holds at most one `/`, and either it is all of `s` or it follows a `/` and holds one.
pub open spec fn is_tail_start(s: Seq<char>, k: int) -> bool {
    &&& 0 <= k <= s.len()
    &&& slash_count(s.skip(k)) <= 1
    &&& (k == 0 || (s[k - 1] == '/' && slash_count(s.skip(k)) == 1))
}

/// The index at which the last two `/`-separated components of `s` start.
pub open spec fn tail_start(s: Seq<char>) -> int {
    choose|k: int| is_tail_start(s, k)
}

proof fn lemma_slash_count_skip(s: Seq<char>, a: int, b: int)
    requires
        0 <= a <= b <= s.len(),
    ensures
        slash_count(s.skip(a)) >= slash_count(s.skip(b)),
        a < b && s[b - 1] == '/' ==> slash_count(s.skip(a)) >= slash_count(s.skip(b)) + 1,
    decreases b - a,
{
    if a < b {
        assert(s.skip(a).drop_first() =~= s.skip(a + 1));
        assert(s.skip(a)[0] == s[a]);
        lemma_slash_count_skip(s, a + 1, b);
    }
}

/// Only one index starts the last two components.
pub proof fn lemma_tail_start_unique(s: Seq<char>, k1: int, k2: int)
    requires
        is_tail_start(s, k1),
        is_tail_start(s, k2),
    ensures
        k1 == k2,
{
    if k1 < k2 {
        lemma_slash_count_skip(s, k1, k2);
    } else if k2 < k1 {
        lemma_slash_count_skip(s, k2, k1);
    }
}

/// `s` with every trailing `.git` removed.
pub open spec fn strip_git(s: Seq<char>) -> Seq<char>
    decreases s.len(),
{
    if s.len() >= 4 && s.skip(s.len() - 4) == seq!['.', 'g', 'i', 't'] {
        strip_git(s.take(s.len() - 4))
    } else {
        s
    }
}

/// The repository's name as `owner/name`: the last two `/`-separated components of its
/// URL, without trailing `.git`.
#[verifier::rlimit(40)]
pub fn repo_name(url: &str) -> (r: String)
    ensures
        r@ == strip_git(url@.skip(tail_start(url@))),
{
    let v = chars_of(url);
    let mut k: usize = v.len();
    let mut count: usize = 0;
    assert(v@.skip(k as int) =~= Seq::<char>::empty());
    while k > 0
        invariant_except_break
            k <= v.len(),
            count <= 1,
            count == slash_count(v@.skip(k as int)),
        ensures
            k <= v.len(),
            count <= 1,
            count == slash_count(v@.skip(k as int)),
            k == 0 || (v@[k - 1] == '/' && count == 1),
        decreases k,
    {
        assert(v@.skip(k - 1).drop_first() =~= v@.skip(k as int));
        if v[k - 1] == '/' {
            if count == 1 {
                break;
            }
            count = count + 1;
        }
        k = k - 1;
    }
    let mut t: Vec<char> = Vec::new();
    let mut i: usize = k;
    while i < v.len()
        invariant
            k <= i <= v.len(),
            t@ == v@.subrange(k as int, i as int),
        decreases v.len() - i,
    {
        t.push(v[i]);
        i = i + 1;
        assert(t@ =~= v@.subrange(k as int, i as int));
    }
    assert(t@ =~= v@.skip(k as int));
    let mut n: usize = t.len();
    assert(t@.take(n as int) =~= t@);
    while n >= 4 && t[n - 4] == '.' && t[n - 3] == 'g' && t[n - 2] == 'i' && t[n - 1] == 't'
        invariant
            n <= t.len(),
            strip_git(t@.take(n as int)) == strip_git(t@),
        decreases n,
    {
        assert(t@.take(n as int).skip(n - 4) =~= seq!['.', 'g', 'i', 't']);
        assert(t@.take(n as int).take(n - 4) =~= t@.take(n - 4));
        n = n - 4;
    }
    assert(!(t@.take(n as int).len() >= 4 && t@.take(n as int).skip(n - 4) == seq![
        '.',
        'g',
        'i',
        't',
    ])) by {
        if n >= 4 && t@.take(n as int).skip(n - 4) == seq!['.', 'g', 'i', 't'] {
            assert(t@.take(n as int).skip(n - 4)[0] == t@[n - 4]);
            assert(t@.take(n as int).skip(n - 4)[1] == t@[n - 3]);
            assert(t@.take(n as int).skip(n - 4)[2] == t@[n - 2]);
            assert(t@.take(n as int).skip(n - 4)[3] == t@[n - 1]);
        }
    }
    let mut w: Vec<char> = Vec::new();
    let mut j: usize = 0;
    while j < n
        invariant
            j <= n <= t.len(),
            w@ == t@.take(j as int),
        decreases n - j,
    {
        w.push(t[j]);
        j = j + 1;
        assert(w@ =~= t@.take(j as int));
    }
    assert(is_tail_start(v@, k as int));
    proof {
        lemma_tail_start_unique(v@, k as int, tail_start(v@));
    }
    assert(w@ =~= strip_git(t@));
    string_of(&w)
}

} // verus!
