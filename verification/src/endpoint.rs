//! Which endpoint of the server a command goes to.
//!
//! The options `basic`, `header`, `integration`, `collective` and `source`
//! exclude each other in part. They are checked together, once, and what
//! remains is one of three ways to reach the server.

use crate::config::{first_present, DsConfig};
use crate::credential::{Credential, CredentialView};
use crate::error::UsageError;
use crate::opts::EndpointOpts;
use vstd::prelude::*;
use vstd::string::*;

verus! {

/// The way a request reaches the server.
#[derive(Debug, PartialEq, Eq)]
pub enum EndpointSelection {
    /// The integration endpoint of a collective. It needs no login. Its
    /// credential is a user and password, a custom header, or nothing.
    Integration { collective: String, credential: Credential },
    /// The open endpoint of a source.
    Source { source_id: String },
    /// The endpoint for logged in users.
    Session,
}

/// A selection as text.
pub enum EndpointSelectionView {
    Integration { collective: Seq<char>, credential: CredentialView },
    Source { source_id: Seq<char> },
    Session,
}

impl View for EndpointSelection {
    type V = EndpointSelectionView;

    open spec fn view(&self) -> EndpointSelectionView {
        match self {
            EndpointSelection::Integration { collective, credential } => {
                EndpointSelectionView::Integration {
                    collective: collective@,
                    credential: credential@,
                }
            },
            EndpointSelection::Source { source_id } => EndpointSelectionView::Source {
                source_id: source_id@,
            },
            EndpointSelection::Session => EndpointSelectionView::Session,
        }
    }
}

impl Clone for EndpointSelection {
    fn clone(&self) -> (r: Self)
        ensures
            r == *self,
    {
        match self {
            EndpointSelection::Integration { collective, credential } => {
                EndpointSelection::Integration {
                    collective: collective.clone(),
                    credential: credential.clone(),
                }
            },
            EndpointSelection::Source { source_id } => EndpointSelection::Source {
                source_id: source_id.clone(),
            },
            EndpointSelection::Session => EndpointSelection::Session,
        }
    }
}

impl EndpointSelectionView {
    /// The route below the server's base URL that takes an upload.
    pub open spec fn upload_route(self) -> Seq<char> {
        match self {
            EndpointSelectionView::Integration { collective, .. } => {
                "/api/v1/open/integration/item/"@ + collective
            },
            EndpointSelectionView::Source { source_id } => "/api/v1/open/upload/item/"@ + source_id,
            EndpointSelectionView::Session => "/api/v1/sec/upload/item"@,
        }
    }

    /// The route below the server's base URL that says whether the server
    /// has a file with the given checksum.
    pub open spec fn checkfile_route(self, checksum: Seq<char>) -> Seq<char> {
        match self {
            EndpointSelectionView::Integration { collective, .. } => {
                "/api/v1/open/integration/checkfile/"@ + collective + "/"@ + checksum
            },
            EndpointSelectionView::Source { source_id } => "/api/v1/open/checkfile/"@ + source_id
                + "/"@ + checksum,
            EndpointSelectionView::Session => "/api/v1/sec/checkfile/"@ + checksum,
        }
    }
}

impl EndpointSelection {
    /// The integration endpoint never carries a session token.
    pub open spec fn wf(&self) -> bool {
        self matches EndpointSelection::Integration { credential, .. }
            ==> credential.for_integration()
    }

    /// Returns the URL that takes an upload at the server `base_url`: that
    /// of the collective's integration endpoint, of the source's open
    /// endpoint, or of the endpoint for logged in users.
    pub fn upload_url(&self, base_url: &str) -> (url: String)
        ensures
            url@ == base_url@ + self@.upload_route(),
    {
        let url = base_url.to_owned();
        let url = match self {
            EndpointSelection::Integration { collective, .. } => {
                let url = url.concat("/api/v1/open/integration/item/");
                let url = url.concat(collective.as_str());
                assert(url@ =~= base_url@ + self@.upload_route());
                url
            },
            EndpointSelection::Source { source_id } => {
                let url = url.concat("/api/v1/open/upload/item/");
                let url = url.concat(source_id.as_str());
                assert(url@ =~= base_url@ + self@.upload_route());
                url
            },
            EndpointSelection::Session => url.concat("/api/v1/sec/upload/item"),
        };
        url
    }

    /// Returns the URL that says whether the server `base_url` has a file
    /// with the given checksum.
    pub fn checkfile_url(&self, base_url: &str, checksum: &str) -> (url: String)
        ensures
            url@ == base_url@ + self@.checkfile_route(checksum@),
    {
        let url = base_url.to_owned();
        let url = match self {
            EndpointSelection::Integration { collective, .. } => {
                let url = url.concat("/api/v1/open/integration/checkfile/");
                let url = url.concat(collective.as_str());
                url.concat("/")
            },
            EndpointSelection::Source { source_id } => {
                let url = url.concat("/api/v1/open/checkfile/");
                let url = url.concat(source_id.as_str());
                url.concat("/")
            },
            EndpointSelection::Session => url.concat("/api/v1/sec/checkfile/"),
        };
        let url = url.concat(checksum);
        assert(url@ =~= base_url@ + self@.checkfile_route(checksum@));
        url
    }
}

/// The first rule that the options break, if they break one. `logged_in`
/// says whether a session is available.
pub open spec fn violation(opts: EndpointOpts, cfg: DsConfig, logged_in: bool) -> Option<
    UsageError,
> {
    if opts.basic is Some && opts.header is Some {
        Some(UsageError::AmbiguousCredential)
    } else if opts.integration {
        if opts.collective is None {
            Some(UsageError::CollectiveRequired)
        } else if opts.source is Some {
            Some(UsageError::SourceWithIntegration)
        } else {
            None
        }
    } else if opts.basic is Some || opts.header is Some {
        Some(UsageError::CredentialWithoutIntegration)
    } else if first_present(opts.source, cfg.default_source_id) is None && !logged_in {
        Some(UsageError::NoSourceAndNotLoggedIn)
    } else {
        None
    }
}

/// The endpoint that options which break no rule select.
pub open spec fn selected(opts: EndpointOpts, cfg: DsConfig) -> EndpointSelectionView {
    if opts.integration {
        EndpointSelectionView::Integration {
            collective: opts.collective->0@,
            credential: Credential::of_options(opts.basic, opts.header),
        }
    } else {
        match first_present(opts.source, cfg.default_source_id) {
            Some(id) => EndpointSelectionView::Source { source_id: id@ },
            None => EndpointSelectionView::Session,
        }
    }
}

/// Checks the options of a command that uploads or looks up documents and
/// says which endpoint they select. `logged_in` says whether a session is
/// available. The rules are checked in this order, and the first one broken
/// is reported:
///
/// 1. `basic` and `header` exclude each other.
/// 2. The integration endpoint requires a collective and excludes a source
///    id.
/// 3. Without the integration endpoint neither `basic` nor `header` may be
///    given.
/// 4. Without the integration endpoint the source id given in the options
///    is used, else the configured default, else the session; without any
///    of them there is nothing to go by.
pub fn select(opts: &EndpointOpts, cfg: &DsConfig, logged_in: bool) -> (r: Result<
    EndpointSelection,
    UsageError,
>)
    ensures
        match r {
            Ok(selection) => {
                &&& violation(*opts, *cfg, logged_in) is None
                &&& selection@ == selected(*opts, *cfg)
                &&& selection.wf()
            },
            Err(error) => violation(*opts, *cfg, logged_in) == Some(error),
        },
        opts.basic is Some && opts.header is Some ==> r == Err::<EndpointSelection, UsageError>(
            UsageError::AmbiguousCredential,
        ),
        opts.integration && opts.collective is None ==> r is Err,
{
    if opts.basic.is_some() && opts.header.is_some() {
        return Err(UsageError::AmbiguousCredential);
    }
    if opts.integration {
        match &opts.collective {
            None => Err(UsageError::CollectiveRequired),
            Some(collective) => {
                if opts.source.is_some() {
                    Err(UsageError::SourceWithIntegration)
                } else {
                    Ok(
                        EndpointSelection::Integration {
                            collective: collective.clone(),
                            credential: Credential::from_options(&opts.basic, &opts.header),
                        },
                    )
                }
            },
        }
    } else if opts.basic.is_some() || opts.header.is_some() {
        Err(UsageError::CredentialWithoutIntegration)
    } else {
        match opts.get_source_id(cfg) {
            Some(source_id) => Ok(EndpointSelection::Source { source_id }),
            None => {
                if logged_in {
                    Ok(EndpointSelection::Session)
                } else {
                    Err(UsageError::NoSourceAndNotLoggedIn)
                }
            },
        }
    }
}

/// The source id given in the options wins over the configured default.
/// Where neither is there, a command that does not go to the integration
/// endpoint needs a session, and goes to the endpoint for logged in users.
pub proof fn lemma_source_precedence(opts: EndpointOpts, cfg: DsConfig, logged_in: bool)
    ensures
        opts.source is Some ==> first_present(opts.source, cfg.default_source_id) == opts.source,
        opts.source is None ==> first_present(opts.source, cfg.default_source_id)
            == cfg.default_source_id,
        !opts.integration && violation(opts, cfg, logged_in) is None ==> selected(opts, cfg)
            == match first_present(opts.source, cfg.default_source_id) {
            Some(id) => EndpointSelectionView::Source { source_id: id@ },
            None => EndpointSelectionView::Session,
        },
        !opts.integration && violation(opts, cfg, logged_in) is None && first_present(
            opts.source,
            cfg.default_source_id,
        ) is None ==> logged_in,
{
}

} // verus!
