//! The credential of a request.

use crate::opts::NameVal;
use vstd::prelude::*;
use vstd::string::*;

verus! {

/// What a request authenticates with. A request has exactly one credential,
/// so it never carries a session token together with a user and password or
/// with a custom header.
#[derive(Debug, PartialEq, Eq)]
pub enum Credential {
    /// No credential: anonymous access.
    Anonymous,
    /// The token that a login returned. The client does not look into it.
    SessionToken(String),
    /// A user and a password.
    BasicAuth(String, String),
    /// A header and its value.
    HeaderAuth(String, String),
}

/// A credential as text.
pub enum CredentialView {
    Anonymous,
    SessionToken(Seq<char>),
    BasicAuth(Seq<char>, Seq<char>),
    HeaderAuth(Seq<char>, Seq<char>),
}

impl View for Credential {
    type V = CredentialView;

    open spec fn view(&self) -> CredentialView {
        match self {
            Credential::Anonymous => CredentialView::Anonymous,
            Credential::SessionToken(token) => CredentialView::SessionToken(token@),
            Credential::BasicAuth(user, password) => CredentialView::BasicAuth(user@, password@),
            Credential::HeaderAuth(name, value) => CredentialView::HeaderAuth(name@, value@),
        }
    }
}

impl Clone for Credential {
    fn clone(&self) -> (r: Self)
        ensures
            r == *self,
    {
        match self {
            Credential::Anonymous => Credential::Anonymous,
            Credential::SessionToken(token) => Credential::SessionToken(token.clone()),
            Credential::BasicAuth(user, password) => Credential::BasicAuth(
                user.clone(),
                password.clone(),
            ),
            Credential::HeaderAuth(name, value) => Credential::HeaderAuth(
                name.clone(),
                value.clone(),
            ),
        }
    }
}

impl CredentialView {
    /// What may be logged of a credential: its kind and the part of it
    /// that is no secret. The token, the password and the value of the
    /// header are left out.
    pub open spec fn description(self) -> Seq<char> {
        match self {
            CredentialView::Anonymous => "no credential"@,
            CredentialView::SessionToken(_) => "session token"@,
            CredentialView::BasicAuth(user, _) => "basic auth of "@ + user,
            CredentialView::HeaderAuth(name, _) => "header "@ + name,
        }
    }
}

impl Credential {
    /// Returns what may be logged of this credential.
    pub fn describe(&self) -> (text: String)
        ensures
            text@ == self@.description(),
    {
        match self {
            Credential::Anonymous => "no credential".to_owned(),
            Credential::SessionToken(_) => "session token".to_owned(),
            Credential::BasicAuth(user, _) => String::from_str("basic auth of ").concat(user.as_str()),
            Credential::HeaderAuth(name, _) => String::from_str("header ").concat(name.as_str()),
        }
    }

    /// Whether this credential belongs to the integration endpoint: a user
    /// and password, a custom header, or nothing, but never a session token.
    pub open spec fn for_integration(self) -> bool {
        !(self is SessionToken)
    }

    /// The credential that the options `basic` and `header` stand for, when
    /// at most one of them is given.
    pub open spec fn of_options(basic: Option<NameVal>, header: Option<NameVal>) -> CredentialView {
        match (basic, header) {
            (Some(pair), _) => CredentialView::BasicAuth(pair.name@, pair.value@),
            (None, Some(pair)) => CredentialView::HeaderAuth(pair.name@, pair.value@),
            (None, None) => CredentialView::Anonymous,
        }
    }

    /// Makes the credential of the integration endpoint from the options
    /// `basic` and `header`, of which at most one may be given.
    pub fn from_options(basic: &Option<NameVal>, header: &Option<NameVal>) -> (r: Credential)
        requires
            !(basic is Some && header is Some),
        ensures
            r@ == Self::of_options(*basic, *header),
            r.for_integration(),
    {
        match basic {
            Some(pair) => Credential::BasicAuth(pair.name.clone(), pair.value.clone()),
            None => match header {
                Some(pair) => Credential::HeaderAuth(pair.name.clone(), pair.value.clone()),
                None => Credential::Anonymous,
            },
        }
    }
}

} // verus!
