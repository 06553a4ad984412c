//! Whitespace handling and prefix tests on character sequences.
//!
//! The matcher treats a message as a sequence of characters and splits it on
//! ASCII whitespace. The spec functions here are the mathematical model; the
//! exec functions are proved against them.

use vstd::prelude::*;

verus! {

/// The views of a sequence of strings, elementwise.
pub open spec fn str_views(s: Seq<String>) -> Seq<Seq<char>> {
    s.map_values(|x: String| x@)
}

/// Pushing a string and taking views commute.
pub proof fn lemma_str_views_push(s: Seq<String>, x: String)
    ensures
        str_views(s.push(x)) == str_views(s).push(x@),
{
    assert(str_views(s.push(x)) =~= str_views(s).push(x@));
}

/// Concatenation and taking views commute.
pub proof fn lemma_str_views_append(a: Seq<String>, b: Seq<String>)
    ensures
        str_views(a + b) == str_views(a) + str_views(b),
{
    assert(str_views(a + b) =~= str_views(a) + str_views(b));
}

/// The whitespace characters that trimming and token splitting recognise.
pub open spec fn is_space(c: char) -> bool {
    c == ' ' || c == '\t' || c == '\n' || c == '\r'
}

/// `s` with its leading whitespace removed.
pub open spec fn trim_start(s: Seq<char>) -> Seq<char>
    decreases s.len(),
{
    if s.len() > 0 && is_space(s[0]) {
        trim_start(s.drop_first())
    } else {
        s
    }
}

/// `s` with its trailing whitespace removed.
pub open spec fn trim_end(s: Seq<char>) -> Seq<char>
    decreases s.len(),
{
    if s.len() > 0 && is_space(s.last()) {
        trim_end(s.drop_last())
    } else {
        s
    }
}

/// `s` with whitespace removed from both ends.
pub open spec fn trim(s: Seq<char>) -> Seq<char> {
    trim_end(trim_start(s))
}

/// Does `s` start with `p`?
pub open spec fn is_prefix(p: Seq<char>, s: Seq<char>) -> bool {
    p.len() <= s.len() && s.subrange(0, p.len() as int) == p
}

/// Length of the maximal whitespace-free prefix of `s`.
pub open spec fn token_len(s: Seq<char>) -> int
    decreases s.len(),
{
    if s.len() > 0 && !is_space(s[0]) {
        1 + token_len(s.drop_first())
    } else {
        0
    }
}

/// Recognises a whitespace character.
pub fn char_is_space(c: char) -> (r: bool)
    ensures
        r == is_space(c),
{
    c == ' ' || c == '\t' || c == '\n' || c == '\r'
}

proof fn lemma_trim_start_at(s: Seq<char>, i: int)
    requires
        0 <= i <= s.len(),
        forall|j: int| 0 <= j < i ==> is_space(s[j]),
        i == s.len() || !is_space(s[i]),
    ensures
        trim_start(s) == s.subrange(i, s.len() as int),
    decreases i,
{
    if i == 0 {
        if s.len() > 0 && is_space(s[0]) {
            assert(false);
        }
        assert(s.subrange(0, s.len() as int) =~= s);
    } else {
        assert(is_space(s[0]));
        lemma_trim_start_at(s.drop_first(), i - 1);
        assert(s.drop_first().subrange(i - 1, s.drop_first().len() as int) =~= s.subrange(
            i,
            s.len() as int,
        ));
    }
}

proof fn lemma_trim_end_at(s: Seq<char>, i: int)
    requires
        0 <= i <= s.len(),
        forall|j: int| i <= j < s.len() ==> is_space(s[j]),
        i == 0 || !is_space(s[i - 1]),
    ensures
        trim_end(s) == s.subrange(0, i),
    decreases s.len() - i,
{
    if i == s.len() {
        if s.len() > 0 && is_space(s.last()) {
            assert(false);
        }
        assert(s.subrange(0, s.len() as int) =~= s);
    } else {
        assert(is_space(s.last()));
        lemma_trim_end_at(s.drop_last(), i);
        assert(s.drop_last().subrange(0, i) =~= s.subrange(0, i));
    }
}

/// A slice of `s` that holds `trim(s@)`.
pub fn trim_str(s: &str) -> (r: &str)
    ensures
        r@ == trim(s@),
{
    let n = s.unicode_len();
    let mut start: usize = 0;
    while start < n && char_is_space(s.get_char(start))
        invariant
            0 <= start <= n,
            n == s@.len(),
            forall|j: int| 0 <= j < start ==> is_space(s@[j]),
        decreases n - start,
    {
        start = start + 1;
    }
    let mut end: usize = n;
    while end > start && char_is_space(s.get_char(end - 1))
        invariant
            start <= end <= n,
            n == s@.len(),
            forall|j: int| 0 <= j < start ==> is_space(s@[j]),
            start == n || !is_space(s@[start as int]),
            forall|j: int| end <= j < n ==> is_space(s@[j]),
        decreases end,
    {
        end = end - 1;
    }
    proof {
        lemma_trim_start_at(s@, start as int);
        let t = s@.subrange(start as int, n as int);
        if end == start {
            lemma_trim_end_at(t, 0);
        } else {
            lemma_trim_end_at(t, end - start);
        }
        assert(t.subrange(0, end - start) =~= s@.subrange(start as int, end as int));
    }
    s.substring_char(start, end)
}

/// Does `s` start with `p`?
pub fn str_starts_with(s: &str, p: &str) -> (r: bool)
    ensures
        r == is_prefix(p@, s@),
{
    let np = p.unicode_len();
    let ns = s.unicode_len();
    if np > ns {
        return false;
    }
    let mut i: usize = 0;
    while i < np
        invariant
            0 <= i <= np,
            np == p@.len(),
            ns == s@.len(),
            np <= ns,
            forall|j: int| 0 <= j < i ==> s@[j] == p@[j],
        decreases np - i,
    {
        if s.get_char(i) != p.get_char(i) {
            assert(s@.subrange(0, np as int)[i as int] != p@[i as int]);
            return false;
        }
        i = i + 1;
    }
    proof {
        assert(s@.subrange(0, np as int) =~= p@);
    }
    true
}

/// Length of the maximal whitespace-free prefix of `s`, as a machine integer.
pub fn token_len_str(s: &str) -> (r: usize)
    ensures
        r == token_len(s@),
        0 <= token_len(s@) <= s@.len(),
{
    let n = s.unicode_len();
    let mut i: usize = 0;
    while i < n && !char_is_space(s.get_char(i))
        invariant
            0 <= i <= n,
            n == s@.len(),
            forall|j: int| 0 <= j < i ==> !is_space(s@[j]),
        decreases n - i,
    {
        i = i + 1;
    }
    proof {
        lemma_token_len_at(s@, i as int);
    }
    i
}

proof fn lemma_token_len_at(s: Seq<char>, i: int)
    requires
        0 <= i <= s.len(),
        forall|j: int| 0 <= j < i ==> !is_space(s[j]),
        i == s.len() || is_space(s[i]),
    ensures
        token_len(s) == i,
    decreases i,
{
    if i == 0 {
    } else {
        lemma_token_len_at(s.drop_first(), i - 1);
    }
}

/// Index of the first candidate that is a prefix of `msg`, if any.
pub open spec fn first_prefix(cands: Seq<Seq<char>>, msg: Seq<char>) -> Option<int>
    decreases cands.len(),
{
    if cands.len() == 0 {
        None
    } else if is_prefix(cands[0], msg) {
        Some(0)
    } else {
        match first_prefix(cands.drop_first(), msg) {
            Some(i) => Some(i + 1),
            None => None,
        }
    }
}

/// `first_prefix` picks the least index whose candidate is a prefix, and is
/// `None` exactly when no candidate is one.
pub proof fn lemma_first_prefix_at(cands: Seq<Seq<char>>, msg: Seq<char>, i: int)
    requires
        0 <= i <= cands.len(),
        forall|j: int| 0 <= j < i ==> !is_prefix(cands[j], msg),
        i < cands.len() ==> is_prefix(cands[i], msg),
    ensures
        first_prefix(cands, msg) == if i == cands.len() {
            None
        } else {
            Some(i)
        },
    decreases i,
{
    if cands.len() == 0 {
    } else if i == 0 {
    } else {
        assert(!is_prefix(cands[0], msg));
        lemma_first_prefix_at(cands.drop_first(), msg, i - 1);
    }
}

/// A found index always carries a prefix candidate.
pub proof fn lemma_first_prefix_some(cands: Seq<Seq<char>>, msg: Seq<char>)
    ensures
        (match first_prefix(cands, msg) {
            Some(i) => 0 <= i < cands.len() && is_prefix(cands[i], msg),
            None => true,
        }),
    decreases cands.len(),
{
    if cands.len() > 0 && !is_prefix(cands[0], msg) {
        lemma_first_prefix_some(cands.drop_first(), msg);
    }
}

/// Index of the first string in `cands` that `msg` starts with.
pub fn find_first_prefix(cands: &Vec<String>, msg: &str) -> (r: Option<usize>)
    ensures
        match r {
            Some(i) => first_prefix(str_views(cands@), msg@) == Some(i as int) && i < cands@.len(),
            None => first_prefix(str_views(cands@), msg@) is None,
        },
{
    let mut i: usize = 0;
    while i < cands.len()
        invariant
            0 <= i <= cands@.len(),
            forall|j: int| 0 <= j < i ==> !is_prefix(str_views(cands@)[j], msg@),
        decreases cands@.len() - i,
    {
        if str_starts_with(msg, cands[i].as_str()) {
            proof {
                lemma_first_prefix_at(str_views(cands@), msg@, i as int);
            }
            return Some(i);
        }
        i = i + 1;
    }
    proof {
        lemma_first_prefix_at(str_views(cands@), msg@, cands@.len() as int);
    }
    None
}

/// A slice of `s` that holds `trim_start(s@)`.
pub fn trim_start_str(s: &str) -> (r: &str)
    ensures
        r@ == trim_start(s@),
{
    let n = s.unicode_len();
    let mut start: usize = 0;
    while start < n && char_is_space(s.get_char(start))
        invariant
            0 <= start <= n,
            n == s@.len(),
            forall|j: int| 0 <= j < start ==> is_space(s@[j]),
        decreases n - start,
    {
        start = start + 1;
    }
    proof {
        lemma_trim_start_at(s@, start as int);
    }
    s.substring_char(start, n)
}

} // verus!
