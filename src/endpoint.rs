//! The token endpoint of a Bearer challenge, and URLs.
use vstd::prelude::*;
use crate::challenge::WwwAuthenticateHeaderContentBearer;
use crate::error::AuthError;
use crate::text::{opt_view, append_str, chars_of, string_from_chars};

verus! {

#[verifier::external_type_specification]
#[verifier::external_body]
pub struct ExUrl(reqwest::Url);

/// Whether `Url::parse` accepts the text as an absolute URL.
pub uninterp spec fn url_parses(s: Seq<char>) -> bool;

/// Relies on `reqwest::Url::parse` (the `url` crate): succeeds exactly when
/// the text is an absolute URL, which depends on the text alone.
#[verifier::external_body]
fn parse_url(s: &str) -> (r: Option<reqwest::Url>)
    ensures
        r.is_some() == url_parses(s@),
{
    reqwest::Url::parse(s).ok()
}

/// Parses an endpoint, or names it in a `MalformedUrl` error.
pub fn checked_url(s: String) -> (r: Result<reqwest::Url, AuthError>)
    ensures
        r is Ok == url_parses(s@),
        r matches Err(e) ==> (e matches AuthError::MalformedUrl(m) && m@ == s@),
{
    match parse_url(s.as_str()) {
        Some(u) => Ok(u),
        None => Err(AuthError::MalformedUrl(s)),
    }
}

/// The query segment that names the service: `?service=<service>`, if any.
pub open spec fn service_query(service: Option<Seq<char>>) -> Seq<char> {
    match service {
        Some(s) => "?service="@ + s,
        None => Seq::empty(),
    }
}

/// The scope segments: each scope as `scope=<s>`, the first after `?` where
/// no query precedes it, every other after `&`.
pub open spec fn scope_query(scopes: Seq<Seq<char>>, has_query: bool) -> Seq<char>
    decreases scopes.len(),
{
    if scopes.len() == 0 {
        Seq::empty()
    } else {
        let sep = if scopes.len() == 1 && !has_query {
            "?"@
        } else {
            "&"@
        };
        scope_query(scopes.drop_last(), has_query) + sep + "scope="@ + scopes.last()
    }
}

/// The token endpoint: `<realm>[?service=<service>][{?|&}scope=<scope>]*`.
pub open spec fn token_endpoint(
    realm: Seq<char>,
    service: Option<Seq<char>>,
    scopes: Seq<Seq<char>>,
) -> Seq<char> {
    realm + service_query(service) + scope_query(scopes, service is Some)
}

pub open spec fn scopes_view(scopes: Seq<&str>) -> Seq<Seq<char>> {
    scopes.map_values(|s: &str| s@)
}

impl WwwAuthenticateHeaderContentBearer {
    /// The token endpoint for the given scopes, which are appended verbatim.
    pub fn auth_ep(&self, scopes: &[&str]) -> (r: String)
        ensures
            r@ == token_endpoint(self.realm@, opt_view(self.service), scopes_view(scopes@)),
    {
        let mut ep = string_from_chars(&chars_of(self.realm.as_str()));
        let has_query = self.service.is_some();
        match &self.service {
            Some(sv) => {
                append_str(&mut ep, "?service=");
                append_str(&mut ep, sv.as_str());
            },
            None => {},
        }
        let ghost base = ep@;
        assert(base == self.realm@ + service_query(opt_view(self.service)));
        let mut i: usize = 0;
        while i < scopes.len()
            invariant
                i <= scopes.len(),
                has_query == (self.service is Some),
                ep@ == base + scope_query(scopes_view(scopes@).take(i as int), has_query),
            decreases scopes.len() - i,
        {
            let ghost prev = ep@;
            if i == 0 && !has_query {
                append_str(&mut ep, "?");
            } else {
                append_str(&mut ep, "&");
            }
            append_str(&mut ep, "scope=");
            append_str(&mut ep, scopes[i]);
            i = i + 1;
            proof {
                let sv = scopes_view(scopes@);
                assert(sv.take(i as int).drop_last() =~= sv.take(i - 1));
                assert(sv.take(i as int).last() == scopes@[i - 1]@);
            }
        }
        assert(scopes_view(scopes@).take(i as int) =~= scopes_view(scopes@));
        ep
    }

    /// The token endpoint, checked to be an absolute URL before any request.
    pub fn token_url(&self, scopes: &[&str]) -> (r: Result<reqwest::Url, AuthError>)
        ensures
            r is Ok == url_parses(
                token_endpoint(self.realm@, opt_view(self.service), scopes_view(scopes@)),
            ),
            r matches Err(e) ==> (e matches AuthError::MalformedUrl(m) && m@ == token_endpoint(
                self.realm@,
                opt_view(self.service),
                scopes_view(scopes@),
            )),
    {
        checked_url(self.auth_ep(scopes))
    }
}


/// The separator before the first scope: `&` after a query, `?` otherwise.
pub open spec fn first_scope_separator(has_query: bool) -> Seq<char> {
    if has_query {
        "&"@
    } else {
        "?"@
    }
}

proof fn lemma_scope_query_first(scopes: Seq<Seq<char>>, has_query: bool)
    requires
        scopes.len() > 0,
    ensures
        scope_query(scopes, has_query) == first_scope_separator(has_query) + "scope="@ + scopes[0]
            + scope_query(scopes.drop_first(), true),
    decreases scopes.len(),
{
    if scopes.len() == 1 {
        assert(scopes.drop_first().len() == 0);
        assert(scope_query(scopes.drop_last(), has_query) =~= Seq::<char>::empty());
        assert(scope_query(scopes, has_query) =~= first_scope_separator(has_query) + "scope="@
            + scopes[0] + Seq::<char>::empty());
    } else {
        let front = scopes.drop_last();
        lemma_scope_query_first(front, has_query);
        assert(front.drop_first() =~= scopes.drop_first().drop_last());
        assert(scopes.drop_first().last() == scopes.last());
        assert(front[0] == scopes[0]);
        let sep = first_scope_separator(has_query);
        let a = sep + "scope="@ + scopes[0];
        assert(scope_query(scopes, has_query) =~= a + (scope_query(front.drop_first(), true)
            + "&"@ + "scope="@ + scopes.last()));
    }
}

/// The first scope follows the realm and the service query at once: after `&`
/// where a service is given, after `?` where none is; the further scopes
/// follow, each after `&`.
pub proof fn lemma_token_endpoint_first_scope(
    realm: Seq<char>,
    service: Option<Seq<char>>,
    scopes: Seq<Seq<char>>,
)
    requires
        scopes.len() > 0,
    ensures
        token_endpoint(realm, service, scopes) == realm + service_query(service)
            + first_scope_separator(service is Some) + "scope="@ + scopes[0] + scope_query(
            scopes.drop_first(),
            true,
        ),
{
    lemma_scope_query_first(scopes, service is Some);
    assert(token_endpoint(realm, service, scopes) =~= realm + service_query(service)
        + first_scope_separator(service is Some) + "scope="@ + scopes[0] + scope_query(
        scopes.drop_first(),
        true,
    ));
}

} // verus!
