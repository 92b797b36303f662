//! Making a request and attaching a credential to it.

use crate::credential::{Credential, CredentialView};
use crate::opts::EndpointOpts;
use reqwest::blocking::{Client, RequestBuilder};
use vstd::prelude::*;

verus! {

/// The blocking client of `reqwest`. Nothing of its inside is known here.
#[verifier::external_type_specification]
#[verifier::external_body]
pub struct ExClient(reqwest::blocking::Client);

/// A request under construction, of `reqwest`'s blocking client. Nothing of
/// its inside is known here: the library hands it on.
#[verifier::external_type_specification]
#[verifier::external_body]
pub struct ExRequestBuilder(reqwest::blocking::RequestBuilder);

/// What a request asks the server to do.
#[derive(Debug, Clone, Copy, PartialEq, Eq, Structural)]
pub enum Verb {
    Get,
    Post,
}

/// The request that `reqwest::blocking::Client::request` makes when it is
/// given the method that `verb` stands for and `url`.
pub uninterp spec fn started(client: Client, verb: Verb, url: Seq<char>) -> RequestBuilder;

/// The request that `reqwest::blocking::RequestBuilder::basic_auth` makes of
/// `request` when it is given `username` and, as a present password,
/// `password`.
pub uninterp spec fn with_basic_auth(
    request: RequestBuilder,
    username: Seq<char>,
    password: Seq<char>,
) -> RequestBuilder;

/// The request that `reqwest::blocking::RequestBuilder::header` makes of
/// `request` when it is given the header `name` and its `value`.
pub uninterp spec fn with_header(
    request: RequestBuilder,
    name: Seq<char>,
    value: Seq<char>,
) -> RequestBuilder;

/// How many headers `request` holds, as `http::HeaderMap::len` counts them.
/// A request that holds an error in place of its parts holds none.
pub uninterp spec fn header_count(request: RequestBuilder) -> nat;

/// The number of headers below which a request takes one more for
/// certain. `http::HeaderMap::append`, in which attaching a header ends,
/// panics when its table cannot grow any more. A table with fewer entries
/// than this is never in that state.
pub open spec fn header_room() -> nat {
    128
}

/// Calls `reqwest::blocking::Client::request`. Trusted: the call depends on
/// its arguments alone, so its result is the one that [`started`] names.
/// The new request holds no header but the basic authentication that is
/// made of a user and password inside the URL. The call does not panic: a
/// text that is no URL is kept as an error inside the request, which comes
/// out when the request is sent.
#[verifier::external_body]
fn start(client: &Client, verb: Verb, url: &str) -> (r: RequestBuilder)
    ensures
        r == started(*client, verb, url@),
        header_count(r) <= 1,
{
    let method = match verb {
        Verb::Get => reqwest::Method::GET,
        Verb::Post => reqwest::Method::POST,
    };
    client.request(method, url)
}

/// Calls `reqwest::blocking::RequestBuilder::basic_auth` with a present
/// password. Trusted: the call depends on its three arguments alone, so its
/// result is the one that [`with_basic_auth`] names. It adds at most one
/// header. It does not panic on a request that has room for a header.
#[verifier::external_body]
fn basic_auth(request: RequestBuilder, username: &str, password: &str) -> (r: RequestBuilder)
    requires
        header_count(request) < header_room(),
    ensures
        r == with_basic_auth(request, username@, password@),
        header_count(r) <= header_count(request) + 1,
{
    request.basic_auth(username, Some(password))
}

/// Calls `reqwest::blocking::RequestBuilder::header`. Trusted: the call
/// depends on its three arguments alone, so its result is the one that
/// [`with_header`] names. It adds at most one header. It does not panic on
/// a request that has room for a header: a name or a value that is no valid
/// header is kept as an error inside the request, which comes out when the
/// request is sent.
#[verifier::external_body]
fn header(request: RequestBuilder, name: &str, value: &str) -> (r: RequestBuilder)
    requires
        header_count(request) < header_room(),
    ensures
        r == with_header(request, name@, value@),
        header_count(r) <= header_count(request) + 1,
{
    request.header(name, value)
}

/// The header that carries a session token.
pub open spec fn session_header() -> Seq<char> {
    "X-Docspell-Auth"@
}

/// The request that comes of `base` when `credential` is attached.
pub open spec fn authenticated(base: RequestBuilder, credential: CredentialView) -> RequestBuilder {
    match credential {
        CredentialView::Anonymous => base,
        CredentialView::SessionToken(token) => with_header(base, session_header(), token),
        CredentialView::BasicAuth(username, password) => with_basic_auth(base, username, password),
        CredentialView::HeaderAuth(name, value) => with_header(base, name, value),
    }
}

/// Attaches `credential` to `base`: a session token as the session header, a
/// user and password as HTTP basic authentication, a custom header as it is
/// given. An anonymous request is handed back unchanged. The request must
/// have room for a header.
pub fn build(base: RequestBuilder, credential: &Credential) -> (r: RequestBuilder)
    requires
        header_count(base) < header_room(),
    ensures
        r == authenticated(base, credential@),
        header_count(r) <= header_count(base) + 1,
{
    match credential {
        Credential::Anonymous => base,
        Credential::SessionToken(token) => header(base, "X-Docspell-Auth", token.as_str()),
        Credential::BasicAuth(username, password) => basic_auth(
            base,
            username.as_str(),
            password.as_str(),
        ),
        Credential::HeaderAuth(name, value) => header(base, name.as_str(), value.as_str()),
    }
}

/// Makes the request that asks the server at `url` to do `verb`, with
/// `credential` attached.
pub fn request(client: &Client, verb: Verb, url: &str, credential: &Credential) -> (r:
    RequestBuilder)
    ensures
        r == authenticated(started(*client, verb, url@), credential@),
        header_count(r) <= 2,
{
    build(start(client, verb, url), credential)
}

/// Building a request attaches at most one authentication mechanism: what
/// is built is the base request itself, or the base request with one
/// header, or the base request with one basic authentication. So a request
/// with a session token is the base request with the session header, and
/// with nothing else.
pub proof fn lemma_at_most_one_mechanism(base: RequestBuilder, credential: CredentialView)
    ensures
        ({
            let built = authenticated(base, credential);
            ||| built == base
            ||| exists|name: Seq<char>, value: Seq<char>| built == with_header(base, name, value)
            ||| exists|username: Seq<char>, password: Seq<char>|
                built == with_basic_auth(base, username, password)
        }),
        credential matches CredentialView::SessionToken(token) ==> authenticated(base, credential)
            == with_header(base, session_header(), token),
{
}

impl EndpointOpts {
    /// Whether at most one of `basic` and `header` is given.
    pub open spec fn unambiguous(&self) -> bool {
        !(self.basic is Some && self.header is Some)
    }

    /// Attaches the credential of the integration endpoint, if one is
    /// given, to the request `c`. At most one of `basic` and `header` may be
    /// given, and the request must have room for a header.
    pub fn apply(&self, c: RequestBuilder) -> (r: RequestBuilder)
        requires
            self.unambiguous(),
            header_count(c) < header_room(),
        ensures
            r == authenticated(c, Credential::of_options(self.basic, self.header)),
            header_count(r) <= header_count(c) + 1,
    {
        self.apply_basic(self.apply_header(c))
    }

    fn apply_basic(&self, c: RequestBuilder) -> (r: RequestBuilder)
        requires
            self.basic is Some ==> header_count(c) < header_room(),
        ensures
            r == match self.basic {
                Some(pair) => with_basic_auth(c, pair.name@, pair.value@),
                None => c,
            },
            header_count(r) <= header_count(c) + if self.basic is Some {
                1nat
            } else {
                0nat
            },
    {
        if let Some(b) = &self.basic {
            basic_auth(c, b.name.as_str(), b.value.as_str())
        } else {
            c
        }
    }

    fn apply_header(&self, c: RequestBuilder) -> (r: RequestBuilder)
        requires
            self.header is Some ==> header_count(c) < header_room(),
        ensures
            r == match self.header {
                Some(pair) => with_header(c, pair.name@, pair.value@),
                None => c,
            },
            header_count(r) <= header_count(c) + if self.header is Some {
                1nat
            } else {
                0nat
            },
    {
        if let Some(h) = &self.header {
            header(c, h.name.as_str(), h.value.as_str())
        } else {
            c
        }
    }
}

} // verus!
