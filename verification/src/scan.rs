//! Character scanning over `&str`: locating separators and comparing
//! substrings, with specifications over the `Seq<char>` views.

use vstd::prelude::*;
use vstd::string::*;

verus! {

/// `i` is the first position at or after `from` where `c` occurs in `s`.
pub open spec fn is_first_index_from(s: Seq<char>, c: char, from: int, i: int) -> bool {
    &&& from <= i < s.len()
    &&& s[i] == c
    &&& forall|j: int| from <= j < i ==> s[j] != c
}

/// `i` is the last position where `c` occurs in `s`.
pub open spec fn is_last_index_of(s: Seq<char>, c: char, i: int) -> bool {
    &&& 0 <= i < s.len()
    &&& s[i] == c
    &&& forall|j: int| i < j < s.len() ==> s[j] != c
}

/// `p` is the leftmost position where two consecutive `/` characters occur.
pub open spec fn is_first_dslash_at(s: Seq<char>, p: int) -> bool {
    &&& 0 <= p
    &&& p + 2 <= s.len()
    &&& s[p] == '/'
    &&& s[p + 1] == '/'
    &&& forall|t: int| 0 <= t < p ==> !((#[trigger] s[t]) == '/' && s[t + 1] == '/')
}

pub proof fn lemma_first_index_from_unique(s: Seq<char>, c: char, from: int, i: int, j: int)
    requires
        is_first_index_from(s, c, from, i),
        is_first_index_from(s, c, from, j),
    ensures
        i == j,
{
    if i < j {
        assert(s[i] != c);
    }
    if j < i {
        assert(s[j] != c);
    }
}

pub proof fn lemma_last_index_of_unique(s: Seq<char>, c: char, i: int, j: int)
    requires
        is_last_index_of(s, c, i),
        is_last_index_of(s, c, j),
    ensures
        i == j,
{
    if i < j {
        assert(s[j] != c);
    }
    if j < i {
        assert(s[i] != c);
    }
}

pub proof fn lemma_first_dslash_unique(s: Seq<char>, p: int, q: int)
    requires
        is_first_dslash_at(s, p),
        is_first_dslash_at(s, q),
    ensures
        p == q,
{
    if p < q {
        assert(!(s[p] == '/' && s[p + 1] == '/'));
    }
    if q < p {
        assert(!(s[q] == '/' && s[q + 1] == '/'));
    }
}

/// First occurrence of `c` in `s` at or after position `from`.
pub fn find_char_from(s: &str, c: char, from: usize) -> (r: Option<usize>)
    requires
        from <= s@.len(),
    ensures
        match r {
            Some(i) => is_first_index_from(s@, c, from as int, i as int),
            None => forall|j: int| from <= j < s@.len() ==> s@[j] != c,
        },
{
    let n = s.unicode_len();
    let mut i = from;
    while i < n
        invariant
            from <= i <= n,
            n == s@.len(),
            forall|j: int| from <= j < i ==> s@[j] != c,
        decreases n - i,
    {
        if s.get_char(i) == c {
            return Some(i);
        }
        i = i + 1;
    }
    None
}

/// Last occurrence of `c` in `s`.
pub fn rfind_char(s: &str, c: char) -> (r: Option<usize>)
    ensures
        match r {
            Some(i) => is_last_index_of(s@, c, i as int),
            None => forall|j: int| 0 <= j < s@.len() ==> s@[j] != c,
        },
{
    let n = s.unicode_len();
    let mut i = n;
    while i > 0
        invariant
            i <= n,
            n == s@.len(),
            forall|j: int| i <= j < n ==> s@[j] != c,
        decreases i,
    {
        let k = i - 1;
        if s.get_char(k) == c {
            return Some(k);
        }
        i = k;
    }
    None
}

/// Leftmost occurrence of two consecutive `/` characters in `s`.
pub fn find_dslash(s: &str) -> (r: Option<usize>)
    ensures
        match r {
            Some(p) => is_first_dslash_at(s@, p as int),
            None => forall|t: int|
                0 <= t && t + 2 <= s@.len() ==> !((#[trigger] s@[t]) == '/' && s@[t + 1] == '/'),
        },
{
    let n = s.unicode_len();
    if n < 2 {
        return None;
    }
    let mut p: usize = 0;
    while p <= n - 2
        invariant
            p <= n - 1,
            2 <= n == s@.len(),
            forall|t: int| 0 <= t < p ==> !((#[trigger] s@[t]) == '/' && s@[t + 1] == '/'),
        decreases n - p,
    {
        if s.get_char(p) == '/' && s.get_char(p + 1) == '/' {
            return Some(p);
        }
        p = p + 1;
    }
    None
}

/// Equality of two string slices, specified over their views.
pub fn str_eq(a: &str, b: &str) -> (r: bool)
    ensures
        r == (a@ == b@),
{
    let na = a.unicode_len();
    let nb = b.unicode_len();
    if na != nb {
        return false;
    }
    let mut i: usize = 0;
    while i < na
        invariant
            i <= na,
            na == a@.len(),
            na == b@.len(),
            forall|j: int| 0 <= j < i ==> a@[j] == b@[j],
        decreases na - i,
    {
        if a.get_char(i) != b.get_char(i) {
            return false;
        }
        i = i + 1;
    }
    proof {
        assert(a@ =~= b@);
    }
    true
}

/// Whether `s` begins with `p`, specified as a prefix of the view.
pub fn has_prefix(s: &str, p: &str) -> (r: bool)
    ensures
        r == (s@.len() >= p@.len() && s@.subrange(0, p@.len() as int) == p@),
{
    let ns = s.unicode_len();
    let np = p.unicode_len();
    if ns < np {
        return false;
    }
    let pre = s.substring_char(0, np);
    str_eq(pre, p)
}

} // verus!
