//! Sequence facts about strings: counting a character, finding its first
//! occurrence, splitting once at it, and comparing strings.

use vstd::prelude::*;

verus! {

/// Number of occurrences of `x` in `s`.
pub open spec fn count_char(s: Seq<char>, x: char) -> nat
    decreases s.len(),
{
    if s.len() == 0 {
        0
    } else {
        count_char(s.drop_last(), x) + if s.last() == x { 1nat } else { 0nat }
    }
}

/// `i` is the position of the first `x` in `s`.
pub open spec fn is_first_index(s: Seq<char>, x: char, i: int) -> bool {
    &&& 0 <= i < s.len()
    &&& s[i] == x
    &&& forall|j: int| 0 <= j < i ==> s[j] != x
}

/// The position of the first `x` in `s` (meaningful when `s` contains `x`).
pub open spec fn first_index(s: Seq<char>, x: char) -> int {
    choose|i: int| is_first_index(s, x, i)
}

/// `s` split at the first `x`: the text before it and the text after it,
/// or `None` when `s` holds no `x`.
pub open spec fn split_once(s: Seq<char>, x: char) -> Option<(Seq<char>, Seq<char>)> {
    if s.contains(x) {
        let i = first_index(s, x);
        Some((s.take(i), s.skip(i + 1)))
    } else {
        None
    }
}

/// Counting over a concatenation adds the counts.
pub proof fn lemma_count_char_add(a: Seq<char>, b: Seq<char>, x: char)
    ensures
        count_char(a + b, x) == count_char(a, x) + count_char(b, x),
    decreases b.len(),
{
    if b.len() == 0 {
        assert(a + b =~= a);
    } else {
        lemma_count_char_add(a, b.drop_last(), x);
        assert((a + b).drop_last() =~= a + b.drop_last());
    }
}

/// A sequence without `x` counts no `x`.
pub proof fn lemma_count_char_absent(s: Seq<char>, x: char)
    requires
        !s.contains(x),
    ensures
        count_char(s, x) == 0,
    decreases s.len(),
{
    if s.len() > 0 {
        assert(!s.drop_last().contains(x)) by {
            if s.drop_last().contains(x) {
                let j = choose|j: int| 0 <= j < s.drop_last().len() && s.drop_last()[j] == x;
                assert(s[j] == x);
            }
        }
        lemma_count_char_absent(s.drop_last(), x);
    }
}

/// The first index is unique, so `first_index` picks the one at hand.
pub proof fn lemma_first_index_unique(s: Seq<char>, x: char, i: int)
    requires
        is_first_index(s, x, i),
    ensures
        first_index(s, x) == i,
        s.contains(x),
{
    let k = first_index(s, x);
    assert(is_first_index(s, x, k));
    if k < i {
        assert(s[k] != x);
    } else if i < k {
        assert(s[i] != x);
    }
}

/// `a`, then `x`, then `b` splits at that `x` when `a` holds no `x`.
pub proof fn lemma_split_once_concat(a: Seq<char>, x: char, b: Seq<char>)
    requires
        !a.contains(x),
    ensures
        split_once(a + seq![x] + b, x) == Some((a, b)),
{
    let s = a + seq![x] + b;
    assert(is_first_index(s, x, a.len() as int)) by {
        assert forall|j: int| 0 <= j < a.len() implies s[j] != x by {
            assert(s[j] == a[j]);
        }
    }
    lemma_first_index_unique(s, x, a.len() as int);
    assert(s.take(a.len() as int) =~= a);
    assert(s.skip(a.len() as int + 1) =~= b);
}

/// When `s` splits at `x`, it is the first part, `x`, then the second part.
pub proof fn lemma_split_once_rejoin(s: Seq<char>, x: char)
    requires
        split_once(s, x) is Some,
    ensures
        s =~= split_once(s, x).unwrap().0 + seq![x] + split_once(s, x).unwrap().1,
        !split_once(s, x).unwrap().0.contains(x),
{
    let i = first_index(s, x);
    let j = choose|j: int| 0 <= j < s.len() && s[j] == x;
    assert(exists|k: int| is_first_index(s, x, k)) by {
        lemma_first_index_exists(s, x, j);
    }
    assert(is_first_index(s, x, i));
    let p = s.take(i);
    assert forall|k: int| 0 <= k < p.len() implies p[k] != x by {
        assert(p[k] == s[k]);
    }
}

/// Some position of `x` means there is a first one.
pub proof fn lemma_first_index_exists(s: Seq<char>, x: char, j: int)
    requires
        0 <= j < s.len(),
        s[j] == x,
    ensures
        exists|k: int| is_first_index(s, x, k),
    decreases j,
{
    if exists|k: int| 0 <= k < j && s[k] == x {
        let k = choose|k: int| 0 <= k < j && s[k] == x;
        lemma_first_index_exists(s, x, k);
    } else {
        assert(is_first_index(s, x, j));
    }
}

/// Finds the first `x` in `s`.
pub fn find_char(s: &str, x: char) -> (r: Option<usize>)
    ensures
        match r {
            Some(i) => is_first_index(s@, x, i as int) && first_index(s@, x) == i && s@.contains(x),
            None => !s@.contains(x),
        },
{
    let n = s.unicode_len();
    let mut i: usize = 0;
    while i < n
        invariant
            n == s@.len(),
            0 <= i <= n,
            forall|j: int| 0 <= j < i ==> s@[j] != x,
        decreases n - i,
    {
        if s.get_char(i) == x {
            proof {
                lemma_first_index_unique(s@, x, i as int);
            }
            return Some(i);
        }
        i = i + 1;
    }
    None
}

/// Counts the occurrences of `x` in `s`.
pub fn count_of(s: &str, x: char) -> (r: usize)
    ensures
        r == count_char(s@, x),
{
    let n = s.unicode_len();
    let mut i: usize = 0;
    let mut k: usize = 0;
    while i < n
        invariant
            n == s@.len(),
            0 <= i <= n,
            k == count_char(s@.take(i as int), x),
            k <= i,
        decreases n - i,
    {
        assert(s@.take(i + 1).drop_last() =~= s@.take(i as int));
        if s.get_char(i) == x {
            k = k + 1;
        }
        i = i + 1;
    }
    assert(s@.take(n as int) =~= s@);
    k
}

/// Splits `s` at its first `x`, as `str::split_once` does.
pub fn split_once_at<'a>(s: &'a str, x: char) -> (r: Option<(&'a str, &'a str)>)
    ensures
        match r {
            Some((a, b)) => split_once(s@, x) == Some((a@, b@)),
            None => split_once(s@, x) is None,
        },
{
    match find_char(s, x) {
        Some(i) => {
            let n = s.unicode_len();
            let a = s.substring_char(0, i);
            let b = s.substring_char(i + 1, n);
            assert(a@ =~= s@.take(i as int));
            assert(b@ =~= s@.skip(i + 1));
            Some((a, b))
        },
        None => None,
    }
}

/// Whether two strings hold the same characters.
pub fn same_text(a: &str, b: &str) -> (r: bool)
    ensures
        r == (a@ == b@),
{
    let n = a.unicode_len();
    if n != b.unicode_len() {
        return false;
    }
    let mut i: usize = 0;
    while i < n
        invariant
            n == a@.len(),
            n == b@.len(),
            0 <= i <= n,
            forall|j: int| 0 <= j < i ==> a@[j] == b@[j],
        decreases n - i,
    {
        if a.get_char(i) != b.get_char(i) {
            return false;
        }
        i = i + 1;
    }
    assert(a@ =~= b@);
    true
}

} // verus!
