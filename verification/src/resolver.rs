//! Finding the one credential of a command.

use crate::config::{first_present, prefer};
use crate::credential::{Credential, CredentialView};
use crate::endpoint::{EndpointSelection, EndpointSelectionView};
use crate::error::Unauthenticated;
use crate::session::{loaded, SessionStore, Stored};
use vstd::prelude::*;

verus! {

/// The session token that is given directly: on the command line, else in
/// the environment.
pub fn session_override(flag: &Option<String>, environment: &Option<String>) -> (r: Option<String>)
    ensures
        r == first_present(*flag, *environment),
{
    prefer(flag, environment)
}

/// The session token that applies at the server `url`: the one given
/// directly, else the one stored for the server.
pub open spec fn session_token(
    direct: Option<String>,
    sessions: Map<Seq<char>, Stored>,
    url: Seq<char>,
) -> Option<Seq<char>> {
    match direct {
        Some(token) => Some(token@),
        None => loaded(sessions, url),
    }
}

/// The credential of a command that goes to the endpoint for logged in
/// users, if there is one.
pub open spec fn session_credential(
    direct: Option<String>,
    sessions: Map<Seq<char>, Stored>,
    url: Seq<char>,
    required: bool,
) -> Option<CredentialView> {
    match session_token(direct, sessions, url) {
        Some(token) => Some(CredentialView::SessionToken(token)),
        None => if required {
            None
        } else {
            Some(CredentialView::Anonymous)
        },
    }
}

/// Whether a session is available at the server `server_url`.
pub fn logged_in(direct: &Option<String>, store: &SessionStore, server_url: &str) -> (r: bool)
    ensures
        r == session_token(*direct, store@, server_url@) is Some,
{
    direct.is_some() || store.load(server_url).is_some()
}

/// Finds the credential of a command that goes to the endpoint for logged
/// in users. A token that is given directly is used as it is, whatever the
/// store holds. Else the token stored for the server is used. Where there
/// is neither, a command that requires a login fails, and any other command
/// goes on without credential.
pub fn resolve_session(
    direct: &Option<String>,
    store: &SessionStore,
    server_url: &str,
    required: bool,
) -> (r: Result<Credential, Unauthenticated>)
    ensures
        match session_credential(*direct, store@, server_url@, required) {
            Some(credential) => r is Ok && r->Ok_0@ == credential,
            None => r is Err,
        },
        direct is Some ==> r is Ok && r->Ok_0@ == CredentialView::SessionToken(direct->0@),
{
    match direct {
        Some(token) => Ok(Credential::SessionToken(token.clone())),
        None => match store.load(server_url) {
            Some(token) => Ok(Credential::SessionToken(token)),
            None => {
                if required {
                    Err(Unauthenticated)
                } else {
                    Ok(Credential::Anonymous)
                }
            },
        },
    }
}

/// Whether a request with this credential carries the token that is stored
/// for the server: it carries a session token, and none was given
/// directly.
pub fn uses_stored_session(direct: &Option<String>, credential: &Credential) -> (r: bool)
    ensures
        r == (direct is None && credential is SessionToken),
{
    match credential {
        Credential::SessionToken(_) => direct.is_none(),
        _ => false,
    }
}

/// The credential that goes with a selected endpoint, if there is one.
pub open spec fn credential_of(
    selection: EndpointSelectionView,
    direct: Option<String>,
    sessions: Map<Seq<char>, Stored>,
    url: Seq<char>,
) -> Option<CredentialView> {
    match selection {
        EndpointSelectionView::Integration { credential, .. } => Some(credential),
        EndpointSelectionView::Source { .. } => Some(CredentialView::Anonymous),
        EndpointSelectionView::Session => session_credential(direct, sessions, url, true),
    }
}

/// Finds the credential that goes with a selected endpoint. The integration
/// endpoint takes the credential that was selected with it, and the open
/// endpoint of a source takes none: neither looks at the session. The
/// endpoint for logged in users requires a session.
pub fn resolve(
    selection: &EndpointSelection,
    direct: &Option<String>,
    store: &SessionStore,
    server_url: &str,
) -> (r: Result<Credential, Unauthenticated>)
    ensures
        match credential_of(selection@, *direct, store@, server_url@) {
            Some(credential) => r is Ok && r->Ok_0@ == credential,
            None => r is Err,
        },
        selection.wf() && r is Ok ==> (r->Ok_0 is SessionToken <==> selection is Session),
{
    match selection {
        EndpointSelection::Integration { credential, .. } => Ok(credential.clone()),
        EndpointSelection::Source { .. } => Ok(Credential::Anonymous),
        EndpointSelection::Session => resolve_session(direct, store, server_url, true),
    }
}

} // verus!
