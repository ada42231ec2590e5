//! Character classes and identifier shapes shared by the model-code parsers.

use vstd::prelude::*;

verus! {

/// An ASCII lowercase letter or an ASCII digit.
pub open spec fn is_lower_or_digit(c: char) -> bool {
    ('a' <= c && c <= 'z') || ('0' <= c && c <= '9')
}

/// An ASCII letter or an ASCII digit.
pub open spec fn is_alphanumeric(c: char) -> bool {
    ('a' <= c && c <= 'z') || ('A' <= c && c <= 'Z') || ('0' <= c && c <= '9')
}

/// The two shapes of identifier in a model code.
#[derive(Clone, Copy, PartialEq, Eq, Debug)]
pub enum IdStyle {
    /// Lowercase kebab-case: parts of `[a-z0-9]+` joined by `-`.
    Kebab,
    /// Model ids: parts of `[A-Za-z0-9]+` joined by `-` or `.`.
    Model,
}

/// Whether `c` separates two parts of an identifier of the given style.
pub open spec fn is_separator(style: IdStyle, c: char) -> bool {
    match style {
        IdStyle::Kebab => c == '-',
        IdStyle::Model => c == '-' || c == '.',
    }
}

/// Whether `c` may stand inside a part of an identifier of the given style.
pub open spec fn is_part_char(style: IdStyle, c: char) -> bool {
    match style {
        IdStyle::Kebab => is_lower_or_digit(c),
        IdStyle::Model => is_alphanumeric(c),
    }
}

/// `s` is a non-empty sequence of parts, each non-empty and made of part
/// characters, joined by single separators: every character is a part
/// character or a separator, and no separator starts or ends `s` or follows
/// another separator.
pub open spec fn is_separated_id(style: IdStyle, s: Seq<char>) -> bool {
    &&& s.len() > 0
    &&& forall|i: int| 0 <= i < s.len() ==> is_part_char(style, #[trigger] s[i]) || is_separator(style, s[i])
    &&& !is_separator(style, s[0])
    &&& !is_separator(style, s[s.len() - 1])
    &&& forall|i: int| 0 <= i < s.len() - 1 ==> !(is_separator(style, #[trigger] s[i]) && is_separator(style, s[i + 1]))
}

/// Lowercase kebab-case identifier (org ids and variants).
pub open spec fn is_kebab_id(s: Seq<char>) -> bool {
    is_separated_id(IdStyle::Kebab, s)
}

/// Model identifier: kebab-case, case sensitive, dots allowed.
pub open spec fn is_model_id(s: Seq<char>) -> bool {
    is_separated_id(IdStyle::Model, s)
}

/// Law: a one-character kebab id is exactly an ASCII lowercase letter or
/// an ASCII digit.
pub proof fn lemma_kebab_single_char(c: char)
    ensures
        is_kebab_id(seq![c]) <==> (('a' <= c && c <= 'z') || ('0' <= c && c <= '9')),
{
    assert(seq![c][0] == c);
}

/// Law: a one-character model id is exactly an ASCII letter or an ASCII digit.
pub proof fn lemma_model_single_char(c: char)
    ensures
        is_model_id(seq![c]) <==> (('a' <= c && c <= 'z') || ('A' <= c && c <= 'Z') || ('0' <= c && c <= '9')),
{
    assert(seq![c][0] == c);
}

/// Law: a non-empty run of ASCII lowercase letters and digits is a kebab id,
/// and a kebab id holds nothing but those and `-`.
pub proof fn lemma_kebab_chars(s: Seq<char>)
    ensures
        (s.len() > 0 && forall|i: int| 0 <= i < s.len() ==> ('a' <= #[trigger] s[i] && s[i] <= 'z') || ('0' <= s[i] && s[i] <= '9'))
            ==> is_kebab_id(s),
        is_kebab_id(s) ==> forall|i: int| 0 <= i < s.len() ==> ('a' <= #[trigger] s[i] && s[i] <= 'z') || ('0' <= s[i] && s[i] <= '9') || s[i] == '-',
{
    if s.len() > 0 && forall|i: int| 0 <= i < s.len() ==> ('a' <= #[trigger] s[i] && s[i] <= 'z') || ('0' <= s[i] && s[i] <= '9') {
        assert forall|i: int| 0 <= i < s.len() - 1 implies !(is_separator(IdStyle::Kebab, #[trigger] s[i]) && is_separator(IdStyle::Kebab, s[i + 1])) by {
            assert(s[i] != '-');
        }
        assert(s[0] != '-');
        assert(s[s.len() - 1] != '-');
    }
    if is_kebab_id(s) {
        assert forall|i: int| 0 <= i < s.len() implies ('a' <= #[trigger] s[i] && s[i] <= 'z') || ('0' <= s[i] && s[i] <= '9') || s[i] == '-' by {
            assert(is_part_char(IdStyle::Kebab, s[i]) || is_separator(IdStyle::Kebab, s[i]));
        }
    }
}

/// Law: a non-empty run of ASCII letters and digits is a model id, and a
/// model id holds nothing but those, `-` and `.`.
pub proof fn lemma_model_chars(s: Seq<char>)
    ensures
        (s.len() > 0 && forall|i: int| 0 <= i < s.len() ==> ('a' <= #[trigger] s[i] && s[i] <= 'z') || ('A' <= s[i] && s[i] <= 'Z') || ('0' <= s[i] && s[i] <= '9'))
            ==> is_model_id(s),
        is_model_id(s) ==> forall|i: int| 0 <= i < s.len() ==> ('a' <= #[trigger] s[i] && s[i] <= 'z') || ('A' <= s[i] && s[i] <= 'Z') || ('0' <= s[i] && s[i] <= '9') || s[i] == '-' || s[i] == '.',
{
    if s.len() > 0 && forall|i: int| 0 <= i < s.len() ==> ('a' <= #[trigger] s[i] && s[i] <= 'z') || ('A' <= s[i] && s[i] <= 'Z') || ('0' <= s[i] && s[i] <= '9') {
        assert forall|i: int| 0 <= i < s.len() - 1 implies !(is_separator(IdStyle::Model, #[trigger] s[i]) && is_separator(IdStyle::Model, s[i + 1])) by {
            assert(s[i] != '-' && s[i] != '.');
        }
        assert(s[0] != '-' && s[0] != '.');
        assert(s[s.len() - 1] != '-' && s[s.len() - 1] != '.');
    }
    if is_model_id(s) {
        assert forall|i: int| 0 <= i < s.len() implies ('a' <= #[trigger] s[i] && s[i] <= 'z') || ('A' <= s[i] && s[i] <= 'Z') || ('0' <= s[i] && s[i] <= '9') || s[i] == '-' || s[i] == '.' by {
            assert(is_part_char(IdStyle::Model, s[i]) || is_separator(IdStyle::Model, s[i]));
        }
    }
}

/// Law: two kebab ids joined by `-` form a kebab id; an id never starts or
/// ends with `-`.
pub proof fn lemma_kebab_join(a: Seq<char>, b: Seq<char>)
    requires
        is_kebab_id(a),
        is_kebab_id(b),
    ensures
        is_kebab_id(a + seq!['-'] + b),
        !is_kebab_id(seq!['-'] + a),
        !is_kebab_id(a + seq!['-']),
        !is_kebab_id(a + seq!['-', '-'] + b),
{
    lemma_join(IdStyle::Kebab, a, '-', b);
    assert((seq!['-'] + a)[0] == '-');
    assert((a + seq!['-'])[a.len() as int] == '-');
    let t = a + seq!['-', '-'] + b;
    assert(t[a.len() as int] == '-' && t[a.len() as int + 1] == '-');
}

/// Law: two model ids joined by `-` or `.` form a model id.
pub proof fn lemma_model_join(a: Seq<char>, sep: char, b: Seq<char>)
    requires
        is_model_id(a),
        is_model_id(b),
        sep == '-' || sep == '.',
    ensures
        is_model_id(a + seq![sep] + b),
{
    lemma_join(IdStyle::Model, a, sep, b);
}

proof fn lemma_join(style: IdStyle, a: Seq<char>, sep: char, b: Seq<char>)
    requires
        is_separated_id(style, a),
        is_separated_id(style, b),
        is_separator(style, sep),
    ensures
        is_separated_id(style, a + seq![sep] + b),
{
    let t = a + seq![sep] + b;
    let n = a.len() as int;
    assert forall|i: int| 0 <= i < t.len() implies is_part_char(style, #[trigger] t[i]) || is_separator(style, t[i]) by {
        if i < n {
            assert(t[i] == a[i]);
        } else if i > n {
            assert(t[i] == b[i - n - 1]);
        }
    }
    assert(t[0] == a[0]);
    assert(t[t.len() - 1] == b[b.len() - 1]);
    assert forall|i: int| 0 <= i < t.len() - 1 implies !(is_separator(style, #[trigger] t[i]) && is_separator(style, t[i + 1])) by {
        if i < n - 1 {
            assert(t[i] == a[i] && t[i + 1] == a[i + 1]);
        } else if i == n - 1 {
            assert(t[i] == a[n - 1]);
        } else if i == n {
            assert(t[i + 1] == b[0]);
        } else {
            assert(t[i] == b[i - n - 1] && t[i + 1] == b[i - n]);
        }
    }
}

fn separator(style: IdStyle, c: char) -> (r: bool)
    ensures r == is_separator(style, c),
{
    match style {
        IdStyle::Kebab => c == '-',
        IdStyle::Model => c == '-' || c == '.',
    }
}

fn part_char(style: IdStyle, c: char) -> (r: bool)
    ensures r == is_part_char(style, c),
{
    match style {
        IdStyle::Kebab => ('a' <= c && c <= 'z') || ('0' <= c && c <= '9'),
        IdStyle::Model => ('a' <= c && c <= 'z') || ('A' <= c && c <= 'Z') || ('0' <= c && c <= '9'),
    }
}

/// Checks whether `s` is an identifier of the given style.
pub fn separated_id(style: IdStyle, s: &str) -> (r: bool)
    ensures r == is_separated_id(style, s@),
{
    let n = s.unicode_len();
    if n == 0 {
        return false;
    }
    let mut prev_sep = true;
    let mut i: usize = 0;
    while i < n
        invariant
            n == s@.len(),
            0 <= i <= n,
            prev_sep == (i == 0 || is_separator(style, s@[i - 1])),
            forall|j: int| 0 <= j < i ==> is_part_char(style, #[trigger] s@[j]) || is_separator(style, s@[j]),
            i > 0 ==> !is_separator(style, s@[0]),
            forall|j: int| 0 <= j < i - 1 ==> !(is_separator(style, #[trigger] s@[j]) && is_separator(style, s@[j + 1])),
        decreases n - i,
    {
        let c = s.get_char(i);
        let sep = separator(style, c);
        if sep {
            if prev_sep {
                assert(i == 0 || (is_separator(style, s@[i - 1]) && is_separator(style, s@[i as int])));
                return false;
            }
        } else if !part_char(style, c) {
            assert(!(is_part_char(style, s@[i as int]) || is_separator(style, s@[i as int])));
            return false;
        }
        prev_sep = sep;
        i = i + 1;
    }
    !prev_sep
}

} // verus!
