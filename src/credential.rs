//! Credentials and how they are attached to a request.
use vstd::prelude::*;
use crate::error::AuthError;
use crate::text::{opt_view, chars_of, str_eq, string_from_chars};

verus! {

/// The mathematical value of a Bearer credential.
pub ghost struct BearerAuthModel {
    pub token: Seq<char>,
    pub expires_in: Option<u32>,
    pub issued_at: Option<Seq<char>>,
    pub refresh_token: Option<Seq<char>>,
}

/// A token is usable when it is neither empty nor the word `unauthenticated`.
pub open spec fn valid_token(t: Seq<char>) -> bool {
    t.len() > 0 && t != "unauthenticated"@
}

/// A Bearer credential. Its token is always valid.
#[derive(Debug)]
pub struct BearerAuth {
    token: String,
    expires_in: Option<u32>,
    issued_at: Option<String>,
    refresh_token: Option<String>,
}

impl View for BearerAuth {
    type V = BearerAuthModel;

    closed spec fn view(&self) -> BearerAuthModel {
        BearerAuthModel {
            token: self.token@,
            expires_in: self.expires_in,
            issued_at: opt_view(self.issued_at),
            refresh_token: opt_view(self.refresh_token),
        }
    }
}

fn copy_optional(s: &Option<String>) -> (r: Option<String>)
    ensures
        opt_view(r) == opt_view(*s),
{
    match s {
        Some(t) => Some(copy_string(t)),
        None => None,
    }
}

impl Clone for BearerAuth {
    fn clone(&self) -> (r: Self)
        ensures
            r@ == self@,
    {
        proof {
            use_type_invariant(self);
        }
        BearerAuth {
            token: copy_string(&self.token),
            expires_in: self.expires_in,
            issued_at: copy_optional(&self.issued_at),
            refresh_token: copy_optional(&self.refresh_token),
        }
    }
}

/// A token response as it was decoded, before the token field is settled.
#[derive(Debug, Clone, Default)]
pub struct BearerIntermediate {
    pub token: Option<String>,
    pub access_token: Option<String>,
    pub expires_in: Option<u32>,
    pub issued_at: Option<String>,
    pub refresh_token: Option<String>,
}

/// The token that a response carries: `token` where present, else `access_token`.
pub open spec fn chosen_token(b: BearerIntermediate) -> Option<Seq<char>> {
    match b.token {
        Some(t) => Some(t@),
        None => opt_view(b.access_token),
    }
}

/// Why a token response yields no credential.
pub ghost enum TokenRejection {
    /// Neither `token` nor `access_token` is present.
    MissingTokenField,
    /// The token, given here, is empty or `unauthenticated`.
    InvalidAuthToken(Seq<char>),
}

/// The credential that a token response yields, or why it yields none.
pub open spec fn bearer_from_spec(b: BearerIntermediate) -> Result<BearerAuthModel, TokenRejection> {
    match chosen_token(b) {
        None => Err(TokenRejection::MissingTokenField),
        Some(t) => if valid_token(t) {
            Ok(
                BearerAuthModel {
                    token: t,
                    expires_in: b.expires_in,
                    issued_at: opt_view(b.issued_at),
                    refresh_token: opt_view(b.refresh_token),
                },
            )
        } else {
            Err(TokenRejection::InvalidAuthToken(t))
        },
    }
}

impl BearerAuth {
    #[verifier::type_invariant]
    spec fn token_is_valid(self) -> bool {
        valid_token(self.token@)
    }

    /// The token is valid.
    pub open spec fn wf(&self) -> bool {
        valid_token(self@.token)
    }

    /// Settles the token field of a response and checks the token.
    pub fn try_from(value: BearerIntermediate) -> (r: Result<BearerAuth, AuthError>)
        ensures
            match bearer_from_spec(value) {
                Ok(m) => r matches Ok(a) && a@ == m && a.wf(),
                Err(TokenRejection::MissingTokenField) => r == Err::<BearerAuth, AuthError>(
                    AuthError::MissingTokenField,
                ),
                Err(TokenRejection::InvalidAuthToken(t)) => r matches Err(
                    AuthError::InvalidAuthToken(s),
                ) && s@ == t,
            },
            chosen_token(value) == Some(Seq::<char>::empty()) || chosen_token(value) == Some(
                "unauthenticated"@,
            ) ==> r matches Err(AuthError::InvalidAuthToken(_)),
    {
        let token = match value.token {
            Some(t) => t,
            None => match value.access_token {
                Some(t) => t,
                None => {
                    return Err(AuthError::MissingTokenField);
                },
            },
        };
        if token.as_str().is_empty() || str_eq(token.as_str(), "unauthenticated") {
            return Err(AuthError::InvalidAuthToken(token));
        }
        Ok(
            BearerAuth {
                token,
                expires_in: value.expires_in,
                issued_at: value.issued_at,
                refresh_token: value.refresh_token,
            },
        )
    }

    /// The token, which is always valid.
    pub fn token(&self) -> (r: &str)
        ensures
            r@ == self@.token,
            self.wf(),
    {
        proof {
            use_type_invariant(self);
        }
        self.token.as_str()
    }

    pub fn expires_in(&self) -> (r: Option<u32>)
        ensures
            r == self@.expires_in,
    {
        self.expires_in
    }

    pub fn issued_at(&self) -> (r: &Option<String>)
        ensures
            opt_view(*r) == self@.issued_at,
    {
        &self.issued_at
    }

    pub fn refresh_token(&self) -> (r: &Option<String>)
        ensures
            opt_view(*r) == self@.refresh_token,
    {
        &self.refresh_token
    }
}

/// The token as shown in diagnostics: the characters from `min(1, n - 1)` up
/// to `max(n - 1, 1)` are replaced by `*`, for a token of `n` characters.
pub open spec fn masked(t: Seq<char>) -> Seq<char>
    recommends
        t.len() >= 1,
{
    let n = t.len() as int;
    let start = if n - 1 < 1 { n - 1 } else { 1 };
    let end = if n - 1 > 1 { n - 1 } else { 1 };
    Seq::new(t.len(), |k: int| if start <= k < end { '*' } else { t[k] })
}

/// Masks a non-empty token for diagnostics.
pub fn mask_token(token: &str) -> (r: String)
    requires
        token@.len() >= 1,
    ensures
        r@ == masked(token@),
{
    let mut cs = chars_of(token);
    let n = cs.len();
    let start: usize = if n - 1 < 1 { n - 1 } else { 1 };
    let end: usize = if n - 1 > 1 { n - 1 } else { 1 };
    let mut k: usize = start;
    while k < end
        invariant
            cs.len() == n == token@.len(),
            start <= k <= end <= n,
            start == (if n - 1 < 1 { n - 1 } else { 1 }),
            forall|x: int| 0 <= x < n ==> #[trigger] cs@[x] == if start <= x < k {
                '*'
            } else {
                token@[x]
            },
        decreases end - k,
    {
        cs.set(k, '*');
        k = k + 1;
    }
    assert(cs@ =~= masked(token@));
    string_from_chars(&cs)
}

/// A Basic credential.
#[derive(Debug, Clone)]
pub struct BasicAuth {
    pub user: String,
    pub password: Option<String>,
}

pub ghost struct BasicAuthModel {
    pub user: Seq<char>,
    pub password: Option<Seq<char>>,
}

impl View for BasicAuth {
    type V = BasicAuthModel;

    open spec fn view(&self) -> BasicAuthModel {
        BasicAuthModel { user: self.user@, password: opt_view(self.password) }
    }
}

/// A credential of either scheme.
#[derive(Debug, Clone)]
pub enum Auth {
    Bearer(BearerAuth),
    Basic(BasicAuth),
}

pub ghost enum AuthModel {
    Bearer(BearerAuthModel),
    Basic(BasicAuthModel),
}

impl View for Auth {
    type V = AuthModel;

    open spec fn view(&self) -> AuthModel {
        match self {
            Auth::Bearer(b) => AuthModel::Bearer(b@),
            Auth::Basic(b) => AuthModel::Basic(b@),
        }
    }
}

/// The `Authorization` header of a request, before encoding.
#[derive(Debug, Clone, PartialEq, Eq)]
pub enum Authorization {
    /// `Bearer <token>`.
    Bearer { token: String },
    /// `Basic <base64(user:password)>`.
    Basic { user: String, password: String },
}

pub ghost enum AuthorizationModel {
    Bearer { token: Seq<char> },
    Basic { user: Seq<char>, password: Seq<char> },
}

impl View for Authorization {
    type V = AuthorizationModel;

    open spec fn view(&self) -> AuthorizationModel {
        match self {
            Authorization::Bearer { token } => AuthorizationModel::Bearer { token: token@ },
            Authorization::Basic { user, password } => AuthorizationModel::Basic {
                user: user@,
                password: password@,
            },
        }
    }
}

/// The header that a credential gives: an absent password is sent empty.
pub open spec fn header_for(a: AuthModel) -> AuthorizationModel {
    match a {
        AuthModel::Bearer(b) => AuthorizationModel::Bearer { token: b.token },
        AuthModel::Basic(b) => AuthorizationModel::Basic {
            user: b.user,
            password: match b.password {
                Some(p) => p,
                None => Seq::empty(),
            },
        },
    }
}

/// A request about to be sent: where to, and with which authorization.
#[derive(Debug)]
pub struct OutgoingRequest {
    pub url: reqwest::Url,
    pub authorization: Option<Authorization>,
}

pub ghost struct OutgoingRequestModel {
    pub url: reqwest::Url,
    pub authorization: Option<AuthorizationModel>,
}

impl View for OutgoingRequest {
    type V = OutgoingRequestModel;

    open spec fn view(&self) -> OutgoingRequestModel {
        OutgoingRequestModel {
            url: self.url,
            authorization: match self.authorization {
                Some(h) => Some(h@),
                None => None,
            },
        }
    }
}

/// A request with the credential's header in place of any it had.
pub open spec fn attach(a: AuthModel, req: OutgoingRequestModel) -> OutgoingRequestModel {
    OutgoingRequestModel { url: req.url, authorization: Some(header_for(a)) }
}

/// A copy of a string that keeps its text.
fn copy_string(s: &String) -> (r: String)
    ensures
        r@ == s@,
{
    string_from_chars(&chars_of(s.as_str()))
}

impl Auth {
    /// The header that this credential gives.
    pub fn authorization(&self) -> (r: Authorization)
        ensures
            r@ == header_for(self@),
    {
        match self {
            Auth::Bearer(b) => Authorization::Bearer { token: copy_string(&b.token) },
            Auth::Basic(b) => Authorization::Basic {
                user: copy_string(&b.user),
                password: match &b.password {
                    Some(p) => copy_string(p),
                    None => String::new(),
                },
            },
        }
    }

    /// Attaches this credential to a request.
    pub fn add_auth_headers(&self, request: OutgoingRequest) -> (r: OutgoingRequest)
        ensures
            r@ == attach(self@, request@),
    {
        OutgoingRequest { url: request.url, authorization: Some(self.authorization()) }
    }
}

/// Attaching a credential twice gives the request that attaching it once gives.
pub proof fn lemma_attach_idempotent(a: AuthModel, req: OutgoingRequestModel)
    ensures
        attach(a, attach(a, req)) == attach(a, req),
{
}

} // verus!
