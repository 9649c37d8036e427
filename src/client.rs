//! The decisions of the negotiation. The caller performs each request that a
//! step asks for and hands the response back:
//! `Unauthenticated -> ChallengeReceived -> Authenticated`, or an error.
use vstd::prelude::*;
use crate::challenge::{
    ChallengeModel, WwwAuthenticateHeaderContent, parse_bytes_spec,
};
use crate::credential::{
    Auth, AuthModel, BasicAuth, BasicAuthModel, BearerAuth, BearerIntermediate,
    OutgoingRequest, TokenRejection, attach, bearer_from_spec, chosen_token, header_for,
};
use crate::endpoint::{checked_url, scopes_view, token_endpoint, url_parses};
use crate::error::AuthError;
use crate::text::{append_str, chars_of, string_from_chars};

verus! {

/// A registry client: where the registry is, the credentials that the caller
/// supplied, and the credential that authentication resolved.
#[derive(Debug)]
pub struct Client {
    pub base_url: String,
    pub credentials: Option<(String, String)>,
    pub auth: Option<Auth>,
}

pub open spec fn credentials_view(c: Option<(String, String)>) -> Option<(Seq<char>, Seq<char>)> {
    match c {
        Some((u, p)) => Some((u@, p@)),
        None => None,
    }
}

pub open spec fn auth_view(a: Option<Auth>) -> Option<AuthModel> {
    match a {
        Some(x) => Some(x@),
        None => None,
    }
}

/// The discovery endpoint of a registry: `<base>/v2/`.
pub open spec fn discovery_endpoint(base: Seq<char>) -> Seq<char> {
    base + "/v2/"@
}

/// The Basic credential made of caller-supplied credentials.
pub open spec fn basic_of(user: Seq<char>, password: Seq<char>) -> AuthModel {
    AuthModel::Basic(BasicAuthModel { user, password: Some(password) })
}

/// What the negotiation asks for after the challenge.
#[derive(Debug)]
pub enum AuthStep {
    /// Authentication is done: the client carries its credential.
    Authenticated(Client),
    /// The token endpoint must be asked; the answer goes to
    /// `Client::finish_authentication` of the client given here.
    FetchToken { client: Client, request: OutgoingRequest },
}

impl Client {
    /// A client that is not yet authenticated.
    pub fn new(base_url: String, credentials: Option<(String, String)>) -> (r: Client)
        ensures
            r.base_url@ == base_url@,
            credentials_view(r.credentials) == credentials_view(credentials),
            r.auth is None,
    {
        Client { base_url, credentials, auth: None }
    }

    /// The discovery endpoint, checked to be an absolute URL.
    pub fn discovery_url(&self) -> (r: Result<reqwest::Url, AuthError>)
        ensures
            r is Ok == url_parses(discovery_endpoint(self.base_url@)),
            r matches Err(e) ==> (e matches AuthError::MalformedUrl(m) && m@
                == discovery_endpoint(self.base_url@)),
    {
        let mut ep = string_from_chars(&chars_of(self.base_url.as_str()));
        append_str(&mut ep, "/v2/");
        checked_url(ep)
    }

    /// A request to `url` that carries this client's credential, if any.
    pub fn build_request(&self, url: reqwest::Url) -> (r: OutgoingRequest)
        ensures
            r.url == url,
            match auth_view(self.auth) {
                Some(a) => r@ == attach(a, OutgoingRequest { url, authorization: None }@),
                None => r.authorization is None,
            },
    {
        let req = OutgoingRequest { url, authorization: None };
        match &self.auth {
            Some(a) => a.add_auth_headers(req),
            None => req,
        }
    }

    /// The probe that elicits the challenge: the discovery endpoint, with no
    /// credential at all, whatever this client carries.
    pub fn probe_request(&self) -> (r: Result<OutgoingRequest, AuthError>)
        ensures
            r is Ok == url_parses(discovery_endpoint(self.base_url@)),
            r matches Ok(q) ==> q.authorization is None,
            r matches Err(e) ==> (e matches AuthError::MalformedUrl(m) && m@
                == discovery_endpoint(self.base_url@)),
    {
        match self.discovery_url() {
            Ok(url) => Ok(OutgoingRequest { url, authorization: None }),
            Err(e) => Err(e),
        }
    }

    /// Decides on the challenge of the probe response, given the value of its
    /// `WWW-Authenticate` header if it had one.
    ///
    /// A Basic challenge is answered with the caller's credentials. A Bearer
    /// challenge asks for a token request to the challenge's endpoint, which
    /// carries the caller's credentials as Basic authentication if there are any.
    pub fn authenticate(self, scopes: &[&str], www_authenticate: Option<&[u8]>) -> (r: Result<
        AuthStep,
        AuthError,
    >)
        ensures
            www_authenticate is None ==> r == Err::<AuthStep, AuthError>(
                AuthError::MissingAuthHeader,
            ),
            www_authenticate matches Some(h) ==> match parse_bytes_spec(h@) {
                Err(e) => r == Err::<AuthStep, AuthError>(AuthError::Parse(e)),
                Ok(ChallengeModel::Basic { .. }) => match credentials_view(self.credentials) {
                    None => r == Err::<AuthStep, AuthError>(AuthError::NoCredentials),
                    Some((u, p)) => r matches Ok(AuthStep::Authenticated(c)) && c.base_url@
                        == self.base_url@ && credentials_view(c.credentials) == credentials_view(
                        self.credentials,
                    ) && auth_view(c.auth) == Some(basic_of(u, p)),
                },
                Ok(ChallengeModel::Bearer { realm, service, .. }) => {
                    let ep = token_endpoint(realm, service, scopes_view(scopes@));
                    if url_parses(ep) {
                        r matches Ok(AuthStep::FetchToken { client, request }) && client.base_url@
                            == self.base_url@ && credentials_view(client.credentials)
                            == credentials_view(self.credentials) && auth_view(client.auth)
                            == auth_view(self.auth) && match credentials_view(self.credentials) {
                            Some((u, p)) => request.authorization matches Some(h) && h@
                                == header_for(basic_of(u, p)),
                            None => request.authorization is None,
                        }
                    } else {
                        r matches Err(AuthError::MalformedUrl(m)) && m@ == ep
                    }
                },
            },
    {
        let header = match www_authenticate {
            Some(h) => h,
            None => {
                return Err(AuthError::MissingAuthHeader);
            },
        };
        let challenge = match WwwAuthenticateHeaderContent::from_www_authentication_header(header) {
            Ok(c) => c,
            Err(e) => {
                return Err(AuthError::Parse(e));
            },
        };
        match challenge {
            WwwAuthenticateHeaderContent::Basic(_) => {
                let basic = match &self.credentials {
                    Some((user, password)) => BasicAuth {
                        user: string_from_chars(&chars_of(user.as_str())),
                        password: Some(string_from_chars(&chars_of(password.as_str()))),
                    },
                    None => {
                        return Err(AuthError::NoCredentials);
                    },
                };
                Ok(
                    AuthStep::Authenticated(
                        Client {
                            base_url: self.base_url,
                            credentials: self.credentials,
                            auth: Some(Auth::Basic(basic)),
                        },
                    ),
                )
            },
            WwwAuthenticateHeaderContent::Bearer(bearer) => {
                let url = match bearer.token_url(scopes) {
                    Ok(u) => u,
                    Err(e) => {
                        return Err(e);
                    },
                };
                let request = OutgoingRequest { url, authorization: None };
                let request = match &self.credentials {
                    Some((user, password)) => {
                        let basic = Auth::Basic(
                            BasicAuth {
                                user: string_from_chars(&chars_of(user.as_str())),
                                password: Some(string_from_chars(&chars_of(password.as_str()))),
                            },
                        );
                        basic.add_auth_headers(request)
                    },
                    None => request,
                };
                Ok(AuthStep::FetchToken { client: self, request })
            },
        }
    }

    /// Decides on the token endpoint's response: its status and its decoded
    /// body. On success the client carries the Bearer credential.
    pub fn finish_authentication(self, status: u16, body: BearerIntermediate) -> (r: Result<
        Client,
        AuthError,
    >)
        ensures
            status != 200 ==> r == Err::<Client, AuthError>(
                AuthError::UnexpectedHttpStatus(status),
            ),
            status == 200 ==> match bearer_from_spec(body) {
                Ok(m) => r matches Ok(c) && c.base_url@ == self.base_url@ && credentials_view(
                    c.credentials,
                ) == credentials_view(self.credentials) && auth_view(c.auth) == Some(
                    AuthModel::Bearer(m),
                ),
                Err(TokenRejection::MissingTokenField) => r == Err::<Client, AuthError>(
                    AuthError::MissingTokenField,
                ),
                Err(TokenRejection::InvalidAuthToken(t)) => r matches Err(
                    AuthError::InvalidAuthToken(s),
                ) && s@ == t,
            },
            status == 200 && (chosen_token(body) == Some(Seq::<char>::empty()) || chosen_token(
                body,
            ) == Some("unauthenticated"@)) ==> r matches Err(AuthError::InvalidAuthToken(_)),
    {
        if status != 200 {
            return Err(AuthError::UnexpectedHttpStatus(status));
        }
        match BearerAuth::try_from(body) {
            Ok(b) => Ok(
                Client {
                    base_url: self.base_url,
                    credentials: self.credentials,
                    auth: Some(Auth::Bearer(b)),
                },
            ),
            Err(e) => Err(e),
        }
    }

    /// Classifies the status of a request to the discovery endpoint made with
    /// this client's credential: 200 is authenticated, 401 is not, anything
    /// else is an error. Nothing else of the response matters.
    pub fn is_auth(&self, status: u16) -> (r: Result<bool, AuthError>)
        ensures
            status == 200 ==> r == Ok::<bool, AuthError>(true),
            status == 401 ==> r == Ok::<bool, AuthError>(false),
            status != 200 && status != 401 ==> r == Err::<bool, AuthError>(
                AuthError::UnexpectedHttpStatus(status),
            ),
    {
        if status == 200 {
            Ok(true)
        } else if status == 401 {
            Ok(false)
        } else {
            Err(AuthError::UnexpectedHttpStatus(status))
        }
    }
}

} // verus!
