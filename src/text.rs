//! Character-level helpers: whitespace, lines and tokens.

use vstd::prelude::*;

verus! {

/// The characters with the Unicode `White_Space` property.
pub open spec fn is_space(c: char) -> bool {
    let u = c as u32;
    ||| 0x09 <= u <= 0x0D
    ||| u == 0x20
    ||| u == 0x85
    ||| u == 0xA0
    ||| u == 0x1680
    ||| 0x2000 <= u <= 0x200A
    ||| u == 0x2028
    ||| u == 0x2029
    ||| u == 0x202F
    ||| u == 0x205F
    ||| u == 0x3000
}

/// Whether `c` is whitespace.
pub fn space_char(c: char) -> (r: bool)
    ensures
        r == is_space(c),
{
    let u = c as u32;
    (0x09 <= u && u <= 0x0D) || u == 0x20 || u == 0x85 || u == 0xA0 || u == 0x1680 || (0x2000
        <= u && u <= 0x200A) || u == 0x2028 || u == 0x2029 || u == 0x202F || u == 0x205F || u
        == 0x3000
}

/// The characters of `s`, in order.
pub fn chars_of(s: &str) -> (v: Vec<char>)
    ensures
        v@ == s@,
{
    let mut v: Vec<char> = Vec::new();
    for c in it: s.chars()
        invariant
            v@ == it.seq().take(it.index() as int),
    {
        v.push(c);
        assert(v@ =~= it.seq().take(it.index() + 1));
    }
    proof {
        broadcast use vstd::string::axiom_spec_iter;
    }
    v
}

/// Relies on `String::push`: appends one character.
#[verifier::external_body]
pub(crate) fn push_char(s: &mut String, c: char)
    ensures
        final(s)@ == old(s)@.push(c),
{
    s.push(c)
}

/// The string holding the characters of `v`.
pub fn string_of(v: &Vec<char>) -> (s: String)
    ensures
        s@ == v@,
{
    let mut s = String::new();
    let mut i: usize = 0;
    while i < v.len()
        invariant
            i <= v.len(),
            s@ == v@.take(i as int),
        decreases v.len() - i,
    {
        push_char(&mut s, v[i]);
        i = i + 1;
        assert(s@ =~= v@.take(i as int));
    }
    assert(v@.take(i as int) =~= v@);
    s
}

/// The index of the first `c` in `s`, or the length of `s` when it holds none.
pub open spec fn first_index_of(s: Seq<char>, c: char) -> int {
    if exists|i: int| 0 <= i < s.len() && s[i] == c {
        choose|i: int| 0 <= i < s.len() && s[i] == c && forall|j: int| 0 <= j < i ==> s[j] != c
    } else {
        s.len() as int
    }
}

/// The index at which the first line of `s` ends.
pub open spec fn line_end(s: Seq<char>) -> int {
    first_index_of(s, '\n')
}

/// `s` with its trailing whitespace removed.
pub open spec fn trim_end(s: Seq<char>) -> Seq<char>
    decreases s.len(),
{
    if s.len() > 0 && is_space(s.last()) {
        trim_end(s.drop_last())
    } else {
        s
    }
}

/// The run of non-whitespace characters at the very end of `s`.
pub open spec fn trailing_word(s: Seq<char>) -> Seq<char>
    decreases s.len(),
{
    if s.len() > 0 && !is_space(s.last()) {
        trailing_word(s.drop_last()).push(s.last())
    } else {
        Seq::empty()
    }
}

/// The last whitespace-delimited token of `s`, if it has one.
pub open spec fn last_token(s: Seq<char>) -> Option<Seq<char>> {
    if trim_end(s).len() == 0 {
        None
    } else {
        Some(trailing_word(trim_end(s)))
    }
}

/// The index of the first `c` in `v`, or `v.len()` when it holds none.
pub fn find_first(v: &Vec<char>, c: char) -> (r: usize)
    ensures
        r == first_index_of(v@, c),
        r <= v.len(),
{
    let mut i: usize = 0;
    while i < v.len() && v[i] != c
        invariant
            i <= v.len(),
            forall|j: int| 0 <= j < i ==> v@[j] != c,
        decreases v.len() - i,
    {
        i = i + 1;
    }
    if i < v.len() {
        assert(exists|k: int| 0 <= k < v@.len() && v@[k] == c && k == i);
        let ghost f = first_index_of(v@, c);
        assert(f == i) by {
            if f < i {
                assert(v@[f] != c);
            } else if f > i {
                assert(v@[i as int] == c);
            }
        }
    }
    i
}

/// The last whitespace-delimited token among the first `n` characters of `v`.
pub fn last_token_of(v: &Vec<char>, n: usize) -> (r: Option<Vec<char>>)
    requires
        n <= v.len(),
    ensures
        match r {
            Some(t) => last_token(v@.take(n as int)) == Some(t@),
            None => last_token(v@.take(n as int)) is None,
        },
{
    let ghost line = v@.take(n as int);
    let mut j: usize = n;
    while j > 0 && space_char(v[j - 1])
        invariant
            j <= n <= v.len(),
            trim_end(v@.take(j as int)) == trim_end(line),
        decreases j,
    {
        assert(v@.take(j as int).drop_last() =~= v@.take(j - 1));
        j = j - 1;
    }
    assert(trim_end(v@.take(j as int)) == v@.take(j as int));
    if j == 0 {
        return None;
    }
    let mut k: usize = j;
    while k > 0 && !space_char(v[k - 1])
        invariant
            k <= j <= n <= v.len(),
            trailing_word(v@.take(j as int)) == trailing_word(v@.take(k as int)) + v@.subrange(
                k as int,
                j as int,
            ),
        decreases k,
    {
        assert(v@.take(k as int).drop_last() =~= v@.take(k - 1));
        assert(trailing_word(v@.take(k - 1)).push(v@[k - 1]) + v@.subrange(k as int, j as int)
            =~= trailing_word(v@.take(k - 1)) + v@.subrange(k - 1, j as int));
        k = k - 1;
    }
    let mut t: Vec<char> = Vec::new();
    let mut i: usize = k;
    while i < j
        invariant
            k <= i <= j <= v.len(),
            t@ == v@.subrange(k as int, i as int),
        decreases j - i,
    {
        t.push(v[i]);
        i = i + 1;
        assert(t@ =~= v@.subrange(k as int, i as int));
    }
    assert(trailing_word(v@.take(j as int)) =~= t@);
    Some(t)
}

} // verus!
