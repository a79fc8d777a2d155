//! Character-level helpers for scanning URI strings: first-occurrence
//! searches over `Seq<char>` views, ASCII case folding, and exact or
//! case-insensitive string comparison.

use vstd::prelude::*;

verus! {

/// ASCII lower-casing of a single character; anything outside 'A'..'Z'
/// is left as it is.
pub open spec fn lower_char(c: char) -> char {
    match c {
        'A' => 'a',
        'B' => 'b',
        'C' => 'c',
        'D' => 'd',
        'E' => 'e',
        'F' => 'f',
        'G' => 'g',
        'H' => 'h',
        'I' => 'i',
        'J' => 'j',
        'K' => 'k',
        'L' => 'l',
        'M' => 'm',
        'N' => 'n',
        'O' => 'o',
        'P' => 'p',
        'Q' => 'q',
        'R' => 'r',
        'S' => 's',
        'T' => 't',
        'U' => 'u',
        'V' => 'v',
        'W' => 'w',
        'X' => 'x',
        'Y' => 'y',
        'Z' => 'z',
        _ => c,
    }
}

/// ASCII lower-casing of a whole character sequence.
pub open spec fn lower(s: Seq<char>) -> Seq<char> {
    s.map_values(|c: char| lower_char(c))
}

/// Index of the first occurrence of `c` in `s` at or after position `i`,
/// or `s.len()` if there is none.
pub open spec fn find_from(s: Seq<char>, c: char, i: int) -> int
    decreases s.len() - i,
{
    if i < 0 || i >= s.len() {
        s.len() as int
    } else if s[i] == c {
        i
    } else {
        find_from(s, c, i + 1)
    }
}

/// Index of the first occurrence of `c1` or `c2` in `s` at or after
/// position `i`, or `s.len()` if there is none.
pub open spec fn find2_from(s: Seq<char>, c1: char, c2: char, i: int) -> int
    decreases s.len() - i,
{
    if i < 0 || i >= s.len() {
        s.len() as int
    } else if s[i] == c1 || s[i] == c2 {
        i
    } else {
        find2_from(s, c1, c2, i + 1)
    }
}

/// `find_from` returns a position in `[i, s.len()]`; the character there is
/// `c` unless the search ran off the end, and no position before it holds `c`.
pub proof fn lemma_find_from(s: Seq<char>, c: char, i: int)
    requires
        0 <= i <= s.len(),
    ensures
        i <= find_from(s, c, i) <= s.len(),
        find_from(s, c, i) < s.len() ==> s[find_from(s, c, i)] == c,
        forall|j: int| i <= j < find_from(s, c, i) ==> s[j] != c,
    decreases s.len() - i,
{
    if i < s.len() && s[i] != c {
        lemma_find_from(s, c, i + 1);
    }
}

/// The counterpart of `lemma_find_from` for a two-character search.
pub proof fn lemma_find2_from(s: Seq<char>, c1: char, c2: char, i: int)
    requires
        0 <= i <= s.len(),
    ensures
        i <= find2_from(s, c1, c2, i) <= s.len(),
        find2_from(s, c1, c2, i) < s.len() ==> (s[find2_from(s, c1, c2, i)] == c1 || s[find2_from(
            s,
            c1,
            c2,
            i,
        )] == c2),
        forall|j: int| i <= j < find2_from(s, c1, c2, i) ==> (s[j] != c1 && s[j] != c2),
    decreases s.len() - i,
{
    if i < s.len() && s[i] != c1 && s[i] != c2 {
        lemma_find2_from(s, c1, c2, i + 1);
    }
}

/// A position that holds `c`, with no occurrence of `c` between `i` and it,
/// is exactly what `find_from` returns.
pub proof fn lemma_find_from_is(s: Seq<char>, c: char, i: int, k: int)
    requires
        0 <= i <= k <= s.len(),
        forall|j: int| i <= j < k ==> s[j] != c,
        k == s.len() || s[k] == c,
    ensures
        find_from(s, c, i) == k,
    decreases k - i,
{
    if i < k {
        lemma_find_from_is(s, c, i + 1, k);
    }
}

/// The counterpart of `lemma_find_from_is` for a two-character search.
pub proof fn lemma_find2_from_is(s: Seq<char>, c1: char, c2: char, i: int, k: int)
    requires
        0 <= i <= k <= s.len(),
        forall|j: int| i <= j < k ==> (s[j] != c1 && s[j] != c2),
        k == s.len() || s[k] == c1 || s[k] == c2,
    ensures
        find2_from(s, c1, c2, i) == k,
    decreases k - i,
{
    if i < k {
        lemma_find2_from_is(s, c1, c2, i + 1, k);
    }
}

/// Searching a suffix of a longer sequence finds the same occurrence,
/// shifted by the length of the prefix.
pub proof fn lemma_find_from_concat(t: Seq<char>, s: Seq<char>, c: char, i: int)
    requires
        0 <= i <= s.len(),
    ensures
        find_from(t + s, c, t.len() + i) == t.len() + find_from(s, c, i),
    decreases s.len() - i,
{
    assert((t + s).len() == t.len() + s.len());
    if i < s.len() {
        assert((t + s)[t.len() + i] == s[i]);
        if s[i] != c {
            lemma_find_from_concat(t, s, c, i + 1);
        }
    }
}

/// Exec counterpart of `lower_char`.
pub fn char_lower(c: char) -> (r: char)
    ensures
        r == lower_char(c),
{
    match c {
        'A' => 'a',
        'B' => 'b',
        'C' => 'c',
        'D' => 'd',
        'E' => 'e',
        'F' => 'f',
        'G' => 'g',
        'H' => 'h',
        'I' => 'i',
        'J' => 'j',
        'K' => 'k',
        'L' => 'l',
        'M' => 'm',
        'N' => 'n',
        'O' => 'o',
        'P' => 'p',
        'Q' => 'q',
        'R' => 'r',
        'S' => 's',
        'T' => 't',
        'U' => 'u',
        'V' => 'v',
        'W' => 'w',
        'X' => 'x',
        'Y' => 'y',
        'Z' => 'z',
        _ => c,
    }
}

/// First position of `c` in `s` at or after `from`, or the length of `s`.
pub fn find_char(s: &str, c: char, from: usize) -> (r: usize)
    requires
        from <= s@.len(),
    ensures
        r == find_from(s@, c, from as int),
        from <= r <= s@.len(),
{
    let n = s.unicode_len();
    let mut i = from;
    while i < n
        invariant
            from <= i <= n,
            n == s@.len(),
            find_from(s@, c, from as int) == find_from(s@, c, i as int),
        decreases n - i,
    {
        if s.get_char(i) == c {
            return i;
        }
        i = i + 1;
    }
    n
}

/// First position of `c1` or `c2` in `s` at or after `from`, or the length
/// of `s`.
pub fn find_char2(s: &str, c1: char, c2: char, from: usize) -> (r: usize)
    requires
        from <= s@.len(),
    ensures
        r == find2_from(s@, c1, c2, from as int),
        from <= r <= s@.len(),
{
    let n = s.unicode_len();
    let mut i = from;
    while i < n
        invariant
            from <= i <= n,
            n == s@.len(),
            find2_from(s@, c1, c2, from as int) == find2_from(s@, c1, c2, i as int),
        decreases n - i,
    {
        let ch = s.get_char(i);
        if ch == c1 || ch == c2 {
            return i;
        }
        i = i + 1;
    }
    n
}

/// Exact equality of two strings, character by character.
pub fn str_eq(a: &str, b: &str) -> (r: bool)
    ensures
        r == (a@ == b@),
{
    let na = a.unicode_len();
    let nb = b.unicode_len();
    if na != nb {
        return false;
    }
    let mut i: usize = 0;
    while i < na
        invariant
            0 <= i <= na,
            na == a@.len(),
            na == b@.len(),
            forall|j: int| 0 <= j < i ==> a@[j] == b@[j],
        decreases na - i,
    {
        if a.get_char(i) != b.get_char(i) {
            return false;
        }
        i = i + 1;
    }
    proof {
        assert(a@ =~= b@);
    }
    true
}

/// Equality of two strings up to ASCII case.
pub fn str_eq_lower(a: &str, b: &str) -> (r: bool)
    ensures
        r == (lower(a@) == lower(b@)),
{
    let na = a.unicode_len();
    let nb = b.unicode_len();
    if na != nb {
        proof {
            assert(lower(a@).len() != lower(b@).len());
        }
        return false;
    }
    let mut i: usize = 0;
    while i < na
        invariant
            0 <= i <= na,
            na == a@.len(),
            na == b@.len(),
            forall|j: int| 0 <= j < i ==> lower_char(a@[j]) == lower_char(b@[j]),
        decreases na - i,
    {
        if char_lower(a.get_char(i)) != char_lower(b.get_char(i)) {
            proof {
                assert(lower(a@)[i as int] != lower(b@)[i as int]);
            }
            return false;
        }
        i = i + 1;
    }
    proof {
        assert(lower(a@) =~= lower(b@));
    }
    true
}

} // verus!
