//! What the catalog client computes before and after it talks to the
//! service: the base URL it keeps, the endpoint it asks, and how it judges
//! the reply's status. The requests themselves are made by the application.

use vstd::prelude::*;
use vstd::string::StringExecFns;

verus! {

/// Placeholder base URL for the catalog service. The user hosts the configs
/// themselves; this is the default the client falls back to.
pub const DEFAULT_URL: &'static str = "https://catalog.example.invalid";

/// `s` without its trailing `/` characters.
pub open spec fn trim_trailing_slashes(s: Seq<char>) -> Seq<char>
    decreases s.len(),
{
    if s.len() > 0 && s.last() == '/' {
        trim_trailing_slashes(s.drop_last())
    } else {
        s
    }
}

/// Trimming leaves no trailing `/`, and only `/` characters were removed.
pub proof fn lemma_trim_shape(s: Seq<char>)
    ensures
        trim_trailing_slashes(s).len() == 0 || trim_trailing_slashes(s).last() != '/',
        trim_trailing_slashes(s).is_prefix_of(s),
        forall|i: int| trim_trailing_slashes(s).len() <= i < s.len() ==> s[i] == '/',
    decreases s.len(),
{
    if s.len() > 0 && s.last() == '/' {
        lemma_trim_shape(s.drop_last());
        let t = trim_trailing_slashes(s);
        assert forall|i: int| t.len() <= i < s.len() implies s[i] == '/' by {
            if i < s.len() - 1 {
                assert(s.drop_last()[i] == s[i]);
            }
        }
    }
}

/// Law: a base URL is already trimmed, so keeping the base URL of a base
/// URL changes nothing.
pub proof fn lemma_trim_idempotent(s: Seq<char>)
    ensures
        trim_trailing_slashes(trim_trailing_slashes(s)) == trim_trailing_slashes(s),
{
    lemma_trim_shape(s);
}

/// The base URL a client keeps for `url`: `url` with every trailing `/` removed.
pub fn base_url(url: &str) -> (r: String)
    ensures
        r@ == trim_trailing_slashes(url@),
{
    let mut k = url.unicode_len();
    assert(url@.take(k as int) =~= url@);
    while k > 0 && url.get_char(k - 1) == '/'
        invariant
            k <= url@.len(),
            trim_trailing_slashes(url@.take(k as int)) == trim_trailing_slashes(url@),
        decreases k,
    {
        assert(url@.take(k as int).drop_last() =~= url@.take(k - 1));
        k = k - 1;
    }
    let kept = url.substring_char(0, k);
    assert(kept@ =~= url@.take(k as int));
    kept.to_owned()
}

/// The endpoint that lists all providers, under the base URL `base`.
pub fn providers_url(base: &str) -> (r: String)
    ensures
        r@ == base@ + "/v2/providers"@,
{
    let mut r = String::from_str(base);
    r.append("/v2/providers");
    r
}

/// How the client judges a reply's HTTP status: any status but 200 is an
/// error that carries the status.
pub fn status_error(status: u16) -> (r: Option<u16>)
    ensures
        r == (if status == 200 { None } else { Some(status) }),
{
    if status != 200 {
        Some(status)
    } else {
        None
    }
}

} // verus!
