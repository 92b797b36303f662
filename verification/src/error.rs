//! What can go wrong before a request is sent.

use vstd::prelude::*;

verus! {

/// An invalid or conflicting combination of options. It is found before
/// anything is sent to the server.
#[derive(Debug, Clone, Copy, PartialEq, Eq, Structural)]
pub enum UsageError {
    /// Both `basic` and `header` are given.
    AmbiguousCredential,
    /// The integration endpoint is asked for without a collective.
    CollectiveRequired,
    /// The integration endpoint is asked for together with a source id.
    SourceWithIntegration,
    /// `basic` or `header` is given without the integration endpoint.
    CredentialWithoutIntegration,
    /// There is no source id to use and nobody is logged in.
    NoSourceAndNotLoggedIn,
    /// One single item is asked for together with recursive traversal.
    SingleItemWithTraversal,
}

impl UsageError {
    /// The explanation that is given to the user.
    pub open spec fn explanation(self) -> Seq<char> {
        match self {
            UsageError::AmbiguousCredential => "ambiguous credential"@,
            UsageError::CollectiveRequired => "collective required for integration endpoint"@,
            UsageError::SourceWithIntegration => "source id not allowed with integration endpoint"@,
            UsageError::CredentialWithoutIntegration => "credential requires integration endpoint"@,
            UsageError::NoSourceAndNotLoggedIn => "no source id and not logged in"@,
            UsageError::SingleItemWithTraversal => "single item not possible with recursive traversal"@,
        }
    }

    /// Returns the explanation that is given to the user.
    pub fn message(&self) -> (text: &'static str)
        ensures
            text@ == self.explanation(),
    {
        match self {
            UsageError::AmbiguousCredential => "ambiguous credential",
            UsageError::CollectiveRequired => "collective required for integration endpoint",
            UsageError::SourceWithIntegration => "source id not allowed with integration endpoint",
            UsageError::CredentialWithoutIntegration => "credential requires integration endpoint",
            UsageError::NoSourceAndNotLoggedIn => "no source id and not logged in",
            UsageError::SingleItemWithTraversal => "single item not possible with recursive traversal",
        }
    }
}

/// No credential could be found for a command that requires one.
#[derive(Debug, Clone, Copy, PartialEq, Eq, Structural)]
pub struct Unauthenticated;

impl Unauthenticated {
    /// The instruction that is given to the user.
    pub open spec fn explanation() -> Seq<char> {
        "not logged in, run the login command first"@
    }

    /// Returns the instruction that is given to the user.
    pub fn message(&self) -> (text: &'static str)
        ensures
            text@ == Self::explanation(),
    {
        "not logged in, run the login command first"
    }
}

/// Why a command has failed.
#[derive(Debug, PartialEq, Eq)]
pub enum Failure {
    /// The options exclude each other. Nothing was sent.
    Usage(UsageError),
    /// The command requires a login and there is none. Nothing was sent.
    Unauthenticated,
    /// The server could not be reached. The text says why.
    Network(String),
    /// The server has answered with a status other than success. The text
    /// is the body of its answer.
    Server { status: u16, body: String },
    /// The session could not be written. The text says why.
    Storage(String),
}

impl Failure {
    /// The status with which the program ends after this failure. It is
    /// never that of success.
    pub open spec fn status(self) -> i32 {
        match self {
            Failure::Usage(_) => 2,
            Failure::Unauthenticated => 3,
            Failure::Network(_) => 4,
            Failure::Server { .. } => 5,
            Failure::Storage(_) => 6,
        }
    }

    /// What is told to the user.
    pub open spec fn explanation(self) -> Seq<char> {
        match self {
            Failure::Usage(error) => error.explanation(),
            Failure::Unauthenticated => Unauthenticated::explanation(),
            Failure::Network(cause) => cause@,
            Failure::Server { body, .. } => body@,
            Failure::Storage(cause) => cause@,
        }
    }

    /// Returns the status with which the program ends after this failure.
    pub fn exit_code(&self) -> (code: i32)
        ensures
            code == self.status(),
            code != 0,
    {
        match self {
            Failure::Usage(_) => 2,
            Failure::Unauthenticated => 3,
            Failure::Network(_) => 4,
            Failure::Server { .. } => 5,
            Failure::Storage(_) => 6,
        }
    }

    /// Returns what is told to the user: the explanation of a failure that
    /// was found here, and else the cause or the server's answer as it
    /// came.
    pub fn message(&self) -> (text: String)
        ensures
            text@ == self.explanation(),
    {
        match self {
            Failure::Usage(error) => error.message().to_owned(),
            Failure::Unauthenticated => Unauthenticated.message().to_owned(),
            Failure::Network(cause) => cause.clone(),
            Failure::Server { body, .. } => body.clone(),
            Failure::Storage(cause) => cause.clone(),
        }
    }
}

} // verus!
