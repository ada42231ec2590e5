//! A permissive model-code reader: `org/model` or `org/model:variant`, where
//! every part is made of ASCII letters, digits, `-` and `_`.

use vstd::prelude::*;
use vstd::string::StringExecFns;
use crate::text::{split_once, is_first_index, lemma_first_index_unique, lemma_split_once_concat, lemma_split_once_rejoin};

verus! {

/// Why a model code could not be read.
#[derive(Debug, Clone, Copy, PartialEq, Eq, Structural)]
pub enum ModelCodeError {
    /// The org id or the model id is missing.
    InvalidFormat,
    /// A character that cannot stand where it was found.
    InvalidCharacter(char),
}

/// A model code as three plain parts.
#[derive(Debug)]
pub struct ModelCode {
    pub org_id: String,
    pub model_id: String,
    pub variant: Option<String>,
}

/// The parts of a model code as text: org, model and optional variant.
pub type CodeText = (Seq<char>, Seq<char>, Option<Seq<char>>);

impl View for ModelCode {
    type V = CodeText;

    open spec fn view(&self) -> CodeText {
        (self.org_id@, self.model_id@, match self.variant {
            Some(v) => Some(v@),
            None => None,
        })
    }
}

/// A character that may stand inside a part: an ASCII letter or digit, `-` or `_`.
pub open spec fn is_code_char(c: char) -> bool {
    ('a' <= c && c <= 'z') || ('A' <= c && c <= 'Z') || ('0' <= c && c <= '9') || c == '-' || c == '_'
}

/// The characters that end a part: `/` after the org and `:` after the model.
pub open spec fn is_delimiter(c: char) -> bool {
    c == '/' || c == ':'
}

/// Number of delimiters in `s`.
pub open spec fn count_delimiters(s: Seq<char>) -> nat
    decreases s.len(),
{
    if s.len() == 0 {
        0
    } else {
        count_delimiters(s.drop_last()) + if is_delimiter(s.last()) { 1nat } else { 0nat }
    }
}

/// The character at `i` may stand there: a part character, the `/` when no
/// delimiter came before, or the `:` when exactly one came before.
pub open spec fn accepts(s: Seq<char>, i: int) -> bool {
    ||| is_code_char(s[i])
    ||| s[i] == '/' && count_delimiters(s.take(i)) == 0
    ||| s[i] == ':' && count_delimiters(s.take(i)) == 1
}

/// `i` is the first position whose character may not stand there.
pub open spec fn is_first_rejected(s: Seq<char>, i: int) -> bool {
    &&& 0 <= i < s.len()
    &&& !accepts(s, i)
    &&& forall|j: int| 0 <= j < i ==> accepts(s, j)
}

/// The org part: the text before the `/`, or all of it without one.
pub open spec fn org_text(s: Seq<char>) -> Seq<char> {
    match split_once(s, '/') {
        Some((org, _)) => org,
        None => s,
    }
}

/// The model part: between the `/` and the `:` (or the end).
pub open spec fn model_text(s: Seq<char>) -> Seq<char> {
    match split_once(s, '/') {
        Some((_, rest)) => match split_once(rest, ':') {
            Some((model, _)) => model,
            None => rest,
        },
        None => Seq::empty(),
    }
}

/// The variant part: after the `:`, empty without one.
pub open spec fn variant_text(s: Seq<char>) -> Seq<char> {
    match split_once(s, '/') {
        Some((_, rest)) => match split_once(rest, ':') {
            Some((_, variant)) => variant,
            None => Seq::empty(),
        },
        None => Seq::empty(),
    }
}

/// What reading `s` gives: the first character that may not stand where it
/// is, as an error; else a missing org or model, as a format error; else the
/// parts, with an empty variant read as none.
pub open spec fn read_code(s: Seq<char>) -> Result<CodeText, ModelCodeError> {
    if exists|i: int| is_first_rejected(s, i) {
        Err(ModelCodeError::InvalidCharacter(s[choose|i: int| is_first_rejected(s, i)]))
    } else if org_text(s).len() == 0 || model_text(s).len() == 0 {
        Err(ModelCodeError::InvalidFormat)
    } else {
        let v = variant_text(s);
        Ok((org_text(s), model_text(s), if v.len() > 0 { Some(v) } else { None }))
    }
}

/// The text of a model code: `org/model`, then `:variant` when there is one.
pub open spec fn write_code(c: CodeText) -> Seq<char> {
    c.0 + seq!['/'] + c.1 + match c.2 {
        Some(v) => seq![':'] + v,
        None => Seq::<char>::empty(),
    }
}

/// The abstract value of a reading result.
pub open spec fn read_result(r: Result<ModelCode, ModelCodeError>) -> Result<CodeText, ModelCodeError> {
    match r {
        Ok(c) => Ok(c@),
        Err(e) => Err(e),
    }
}

proof fn lemma_first_rejected_unique(s: Seq<char>, i: int, k: int)
    requires
        is_first_rejected(s, i),
        is_first_rejected(s, k),
    ensures
        i == k,
{
    if i < k {
        assert(accepts(s, i));
    } else if k < i {
        assert(accepts(s, k));
    }
}

proof fn lemma_count_delimiters_add(a: Seq<char>, b: Seq<char>)
    ensures
        count_delimiters(a + b) == count_delimiters(a) + count_delimiters(b),
    decreases b.len(),
{
    if b.len() == 0 {
        assert(a + b =~= a);
    } else {
        lemma_count_delimiters_add(a, b.drop_last());
        assert((a + b).drop_last() =~= a + b.drop_last());
    }
}

/// A run of part characters holds no delimiter.
pub open spec fn is_code_word(w: Seq<char>) -> bool {
    forall|i: int| 0 <= i < w.len() ==> is_code_char(#[trigger] w[i])
}

proof fn lemma_word_counts_nothing(w: Seq<char>)
    requires
        is_code_word(w),
    ensures
        count_delimiters(w) == 0,
        !w.contains('/'),
        !w.contains(':'),
    decreases w.len(),
{
    if w.len() > 0 {
        assert(is_code_word(w.drop_last())) by {
            assert forall|i: int| 0 <= i < w.drop_last().len() implies is_code_char(#[trigger] w.drop_last()[i]) by {
                assert(w.drop_last()[i] == w[i]);
            }
        }
        lemma_word_counts_nothing(w.drop_last());
        assert(is_code_char(w[w.len() - 1]));
    }
    assert forall|i: int| 0 <= i < w.len() implies w[i] != '/' && w[i] != ':' by {
        assert(is_code_char(w[i]));
    }
}

/// A model code whose parts a reader gives back unchanged: org and model
/// are non-empty runs of part characters, and so is the variant when present.
pub open spec fn is_readable(c: CodeText) -> bool {
    &&& c.0.len() > 0 && is_code_word(c.0)
    &&& c.1.len() > 0 && is_code_word(c.1)
    &&& c.2 matches Some(v) ==> v.len() > 0 && is_code_word(v)
}

/// Law: writing a readable model code and reading the text gives the same
/// code back.
pub proof fn lemma_write_then_read(c: CodeText)
    requires
        is_readable(c),
    ensures
        read_code(write_code(c)) == Ok::<CodeText, ModelCodeError>(c),
{
    let (org, model, variant) = c;
    let s = write_code(c);
    let tail = match variant {
        Some(v) => seq![':'] + v,
        None => Seq::<char>::empty(),
    };
    let rest = model + tail;
    assert(s =~= org + seq!['/'] + rest);
    lemma_word_counts_nothing(org);
    lemma_word_counts_nothing(model);
    let a = org.len() as int;
    let b = org.len() + 1 + model.len();
    // every character may stand where it is
    assert forall|i: int| 0 <= i < s.len() implies accepts(s, i) by {
        if i < a {
            assert(s[i] == org[i]);
        } else if i == a {
            assert(s.take(i) =~= org);
        } else if i < b {
            assert(s[i] == model[i - a - 1]);
        } else {
            let v = variant->0;
            lemma_word_counts_nothing(v);
            if i == b {
                assert(s.take(i) =~= org + seq!['/'] + model);
                lemma_count_delimiters_add(org + seq!['/'], model);
                lemma_count_delimiters_add(org, seq!['/']);
                assert(seq!['/'].drop_last() =~= Seq::<char>::empty());
                assert(count_delimiters(seq!['/']) == 1) by {
                    reveal_with_fuel(count_delimiters, 2);
                }
                assert(s[i] == ':');
            } else {
                assert(s[i] == v[i - b - 1]);
            }
        }
    }
    assert(!exists|k: int| is_first_rejected(s, k));
    lemma_split_once_concat(org, '/', rest);
    match variant {
        Some(v) => {
            lemma_split_once_concat(model, ':', v);
            assert(rest =~= model + seq![':'] + v);
        },
        None => {
            assert(rest =~= model);
        },
    }
}

/// Some rejected character means there is a first one.
proof fn lemma_some_rejected(s: Seq<char>, j: int)
    requires
        0 <= j < s.len(),
        !accepts(s, j),
    ensures
        exists|k: int| is_first_rejected(s, k),
    decreases j,
{
    if exists|k: int| 0 <= k < j && !accepts(s, k) {
        let k = choose|k: int| 0 <= k < j && !accepts(s, k);
        lemma_some_rejected(s, k);
    } else {
        assert(is_first_rejected(s, j));
    }
}

/// Without a first rejected character, every character is accepted.
proof fn lemma_all_accepted(s: Seq<char>)
    requires
        !exists|k: int| is_first_rejected(s, k),
    ensures
        forall|j: int| 0 <= j < s.len() ==> accepts(s, j),
{
    assert forall|j: int| 0 <= j < s.len() implies accepts(s, j) by {
        if !accepts(s, j) {
            lemma_some_rejected(s, j);
        }
    }
}

/// Text without delimiters counts none.
proof fn lemma_no_delimiters_count_zero(t: Seq<char>)
    requires
        forall|i: int| 0 <= i < t.len() ==> !is_delimiter(#[trigger] t[i]),
    ensures
        count_delimiters(t) == 0,
    decreases t.len(),
{
    if t.len() > 0 {
        assert forall|i: int| 0 <= i < t.drop_last().len() implies !is_delimiter(#[trigger] t.drop_last()[i]) by {
            assert(t.drop_last()[i] == t[i]);
        }
        lemma_no_delimiters_count_zero(t.drop_last());
        assert(!is_delimiter(t[t.len() - 1]));
    }
}

/// Some delimiter means there is a first one.
proof fn lemma_first_delimiter(s: Seq<char>, j: int) -> (k: int)
    requires
        0 <= j < s.len(),
        is_delimiter(s[j]),
    ensures
        0 <= k <= j,
        is_delimiter(s[k]),
        forall|i: int| 0 <= i < k ==> !is_delimiter(#[trigger] s[i]),
    decreases j,
{
    if exists|i: int| 0 <= i < j && is_delimiter(s[i]) {
        let i = choose|i: int| 0 <= i < j && is_delimiter(s[i]);
        lemma_first_delimiter(s, i)
    } else {
        j
    }
}

/// Law: writing what a reader read gives the text back, less the trailing
/// `:` of an empty variant (which reads as no variant).
pub proof fn lemma_read_then_write(s: Seq<char>)
    requires
        read_code(s) is Ok,
    ensures
        write_code(read_code(s)->Ok_0) == if read_code(s)->Ok_0.2 is None && s.contains(':') {
            s.drop_last()
        } else {
            s
        },
{
    let c = read_code(s)->Ok_0;
    match split_once(s, '/') {
        Some((org, rest)) => {
            lemma_split_once_rejoin(s, '/');
            match split_once(rest, ':') {
                Some((model, v)) => {
                    lemma_split_once_rejoin(rest, ':');
                    assert(s[org.len() as int + 1 + model.len()] == ':');
                    if v.len() == 0 {
                        assert(write_code(c) =~= s.drop_last());
                    } else {
                        assert(write_code(c) =~= s);
                    }
                },
                None => {
                    assert(write_code(c) =~= s);
                    if s.contains(':') {
                        let j = choose|j: int| 0 <= j < s.len() && s[j] == ':';
                        if j > org.len() {
                            assert(rest[j - org.len() - 1] == ':');
                        }
                        lemma_all_accepted(s);
                        let k = lemma_first_delimiter(s, j);
                        assert(s[k] == org[k]);
                        assert(s[k] == ':');
                        assert forall|i: int| 0 <= i < s.take(k).len() implies !is_delimiter(#[trigger] s.take(k)[i]) by {
                            assert(s.take(k)[i] == s[i]);
                        }
                        lemma_no_delimiters_count_zero(s.take(k));
                        assert(accepts(s, k));
                    }
                },
            }
        },
        None => {},
    }
}

impl std::str::FromStr for ModelCode {
    type Err = ModelCodeError;

    fn from_str(s: &str) -> (r: Result<Self, Self::Err>)
        ensures
            read_result(r) == read_code(s@),
    {
        ModelCode::from_str(s)
    }
}

/// `char::to_string` from std: the one-character string. Claimed: its text
/// is exactly that character.
#[verifier::external_body]
fn char_text(c: char) -> (r: String)
    ensures
        r@ == seq![c],
{
    c.to_string()
}

/// The message that describes a reading error.
pub open spec fn error_message(e: ModelCodeError) -> Seq<char> {
    match e {
        ModelCodeError::InvalidFormat => "invalid format"@,
        ModelCodeError::InvalidCharacter(c) => "invalid character: "@ + seq![c],
    }
}

impl ModelCodeError {
    /// The message that describes this error.
    pub fn to_string(&self) -> (r: String)
        ensures
            r@ == error_message(*self),
    {
        match self {
            ModelCodeError::InvalidFormat => String::from_str("invalid format"),
            ModelCodeError::InvalidCharacter(c) => {
                let mut r = String::from_str("invalid character: ");
                let t = char_text(*c);
                r.append(t.as_str());
                r
            },
        }
    }
}

fn code_char(c: char) -> (r: bool)
    ensures
        r == is_code_char(c),
{
    ('a' <= c && c <= 'z') || ('A' <= c && c <= 'Z') || ('0' <= c && c <= '9') || c == '-' || c == '_'
}

impl ModelCode {
    /// Builds a model code from its parts as given.
    pub fn new(org_id: &str, model_id: &str, variant: Option<&str>) -> (r: Self)
        ensures
            r@ == (org_id@, model_id@, match variant {
                Some(v) => Some(v@),
                None => None::<Seq<char>>,
            }),
    {
        let variant = match variant {
            Some(v) => Some(v.to_owned()),
            None => None,
        };
        ModelCode { org_id: org_id.to_owned(), model_id: model_id.to_owned(), variant }
    }

    /// Reads `org/model` or `org/model:variant`.
    pub fn from_str(s: &str) -> (r: Result<Self, ModelCodeError>)
        ensures
            read_result(r) == read_code(s@),
    {
        let n = s.unicode_len();
        let mut part: u8 = 0;
        let mut slash: usize = 0;
        let mut colon: usize = 0;
        let mut i: usize = 0;
        while i < n
            invariant
                n == s@.len(),
                0 <= i <= n,
                part <= 2,
                part == count_delimiters(s@.take(i as int)),
                forall|j: int| 0 <= j < i ==> accepts(s@, j),
                part == 0 ==> forall|j: int| 0 <= j < i ==> !is_delimiter(#[trigger] s@[j]),
                part >= 1 ==> slash < i && s@[slash as int] == '/'
                    && forall|j: int| 0 <= j < slash ==> !is_delimiter(#[trigger] s@[j]),
                part == 1 ==> forall|j: int| slash < j < i ==> !is_delimiter(#[trigger] s@[j]),
                part == 2 ==> slash < colon < i && s@[colon as int] == ':'
                    && (forall|j: int| slash < j < colon ==> !is_delimiter(#[trigger] s@[j]))
                    && (forall|j: int| colon < j < i ==> !is_delimiter(#[trigger] s@[j])),
            decreases n - i,
        {
            assert(s@.take(i + 1).drop_last() =~= s@.take(i as int));
            let c = s.get_char(i);
            if c == '/' && part == 0 {
                part = 1;
                slash = i;
            } else if c == ':' && part == 1 {
                part = 2;
                colon = i;
            } else if code_char(c) {
            } else {
                proof {
                    assert(is_first_rejected(s@, i as int));
                    let k = choose|k: int| is_first_rejected(s@, k);
                    lemma_first_rejected_unique(s@, i as int, k);
                }
                return Err(ModelCodeError::InvalidCharacter(c));
            }
            i = i + 1;
        }
        let ghost ss = s@;
        assert(!exists|k: int| is_first_rejected(ss, k));
        let (org, model, variant);
        if part == 0 {
            assert(!ss.contains('/'));
            org = s;
            model = s.substring_char(n, n);
            variant = s.substring_char(n, n);
        } else {
            proof {
                assert(is_first_index(ss, '/', slash as int));
                lemma_first_index_unique(ss, '/', slash as int);
            }
            org = s.substring_char(0, slash);
            let ghost rest = ss.skip(slash + 1);
            if part == 1 {
                assert(!rest.contains(':')) by {
                    if rest.contains(':') {
                        let j = choose|j: int| 0 <= j < rest.len() && rest[j] == ':';
                        assert(ss[slash + 1 + j] == ':');
                    }
                }
                model = s.substring_char(slash + 1, n);
                variant = s.substring_char(n, n);
                assert(model@ =~= rest);
            } else {
                proof {
                    assert(is_first_index(rest, ':', colon - slash - 1)) by {
                        assert forall|j: int| 0 <= j < colon - slash - 1 implies rest[j] != ':' by {
                            assert(rest[j] == ss[slash + 1 + j]);
                        }
                    }
                    lemma_first_index_unique(rest, ':', colon - slash - 1);
                }
                model = s.substring_char(slash + 1, colon);
                variant = s.substring_char(colon + 1, n);
                assert(model@ =~= rest.take(colon - slash - 1));
                assert(variant@ =~= rest.skip(colon - slash - 1 + 1));
            }
            assert(org@ =~= ss.take(slash as int));
        }
        assert(org@ == org_text(ss));
        assert(model@ == model_text(ss));
        assert(variant@ =~= variant_text(ss));
        if org.unicode_len() == 0 || model.unicode_len() == 0 {
            return Err(ModelCodeError::InvalidFormat);
        }
        let owned_variant = if variant.unicode_len() > 0 {
            Some(variant.to_owned())
        } else {
            None
        };
        Ok(ModelCode { org_id: org.to_owned(), model_id: model.to_owned(), variant: owned_variant })
    }

    /// The code as text: `org/model`, then `:variant` when there is one.
    pub fn to_string(&self) -> (r: String)
        ensures
            r@ == write_code(self@),
    {
        let mut s = self.org_id.clone();
        s.append("/");
        s.append(self.model_id.as_str());
        match &self.variant {
            Some(v) => {
                s.append(":");
                s.append(v.as_str());
            },
            None => {},
        }
        proof {
            reveal_strlit("/");
            reveal_strlit(":");
        }
        assert(s@ =~= write_code(self@));
        s
    }
}

} // verus!
