use dsc::config::DsConfig;
use dsc::credential::Credential;
use dsc::endpoint::{select, EndpointSelection};
use dsc::error::UsageError;
use dsc::opts::{EndpointOpts, NameVal};

fn cfg(default_source_id: Option<&str>) -> DsConfig {
    let mut cfg = DsConfig::new();
    cfg.default_source_id = default_source_id.map(|s| s.to_string());
    cfg
}

fn pair(name: &str, value: &str) -> NameVal {
    NameVal { name: name.to_string(), value: value.to_string() }
}

fn opts(basic: bool, header: bool, integration: bool, collective: bool, source: bool) -> EndpointOpts {
    EndpointOpts {
        basic: if basic { Some(pair("user", "pass")) } else { None },
        header: if header { Some(pair("X-Key", "secret")) } else { None },
        integration,
        collective: if collective { Some("family".to_string()) } else { None },
        source: if source { Some("src-1".to_string()) } else { None },
    }
}

fn flags() -> [bool; 2] {
    [false, true]
}

#[test]
fn basic_and_header_are_always_ambiguous() {
    for integration in flags() {
        for collective in flags() {
            for source in flags() {
                for default in flags() {
                    for logged_in in flags() {
                        let o = opts(true, true, integration, collective, source);
                        let c = cfg(if default { Some("dflt") } else { None });
                        assert_eq!(select(&o, &c, logged_in), Err(UsageError::AmbiguousCredential));
                    }
                }
            }
        }
    }
}

#[test]
fn integration_without_collective_is_always_rejected() {
    for basic in flags() {
        for header in flags() {
            for source in flags() {
                for default in flags() {
                    for logged_in in flags() {
                        let o = opts(basic, header, true, false, source);
                        let c = cfg(if default { Some("dflt") } else { None });
                        let expected = if basic && header {
                            UsageError::AmbiguousCredential
                        } else {
                            UsageError::CollectiveRequired
                        };
                        assert_eq!(select(&o, &c, logged_in), Err(expected));
                    }
                }
            }
        }
    }
}

fn expected(
    basic: bool,
    header: bool,
    integration: bool,
    collective: bool,
    source: bool,
    default: bool,
    logged_in: bool,
) -> Result<EndpointSelection, UsageError> {
    if basic && header {
        return Err(UsageError::AmbiguousCredential);
    }
    if integration && !collective {
        return Err(UsageError::CollectiveRequired);
    }
    if integration && source {
        return Err(UsageError::SourceWithIntegration);
    }
    if !integration && (basic || header) {
        return Err(UsageError::CredentialWithoutIntegration);
    }
    if integration {
        let credential = if basic {
            Credential::BasicAuth("user".to_string(), "pass".to_string())
        } else if header {
            Credential::HeaderAuth("X-Key".to_string(), "secret".to_string())
        } else {
            Credential::Anonymous
        };
        return Ok(EndpointSelection::Integration { collective: "family".to_string(), credential });
    }
    if source {
        return Ok(EndpointSelection::Source { source_id: "src-1".to_string() });
    }
    if default {
        return Ok(EndpointSelection::Source { source_id: "dflt".to_string() });
    }
    if logged_in {
        return Ok(EndpointSelection::Session);
    }
    Err(UsageError::NoSourceAndNotLoggedIn)
}

#[test]
fn every_combination_of_options() {
    let mut seen = 0;
    for basic in flags() {
        for header in flags() {
            for integration in flags() {
                for collective in flags() {
                    for source in flags() {
                        for default in flags() {
                            for logged_in in flags() {
                                let o = opts(basic, header, integration, collective, source);
                                let c = cfg(if default { Some("dflt") } else { None });
                                assert_eq!(
                                    select(&o, &c, logged_in),
                                    expected(basic, header, integration, collective, source, default, logged_in)
                                );
                                seen += 1;
                            }
                        }
                    }
                }
            }
        }
    }
    assert_eq!(seen, 128);
}

#[test]
fn first_broken_rule_is_reported() {
    // ambiguous credential before anything else
    assert_eq!(
        select(&opts(true, true, true, false, true), &cfg(None), false),
        Err(UsageError::AmbiguousCredential)
    );
    // missing collective before source with integration
    assert_eq!(
        select(&opts(false, false, true, false, true), &cfg(None), false),
        Err(UsageError::CollectiveRequired)
    );
    assert_eq!(
        select(&opts(false, false, true, true, true), &cfg(None), false),
        Err(UsageError::SourceWithIntegration)
    );
    // credential without integration before the source id is looked for
    assert_eq!(
        select(&opts(true, false, false, false, false), &cfg(None), false),
        Err(UsageError::CredentialWithoutIntegration)
    );
    assert_eq!(
        select(&opts(false, true, false, false, true), &cfg(Some("dflt")), true),
        Err(UsageError::CredentialWithoutIntegration)
    );
    assert_eq!(
        select(&opts(false, false, false, false, false), &cfg(None), false),
        Err(UsageError::NoSourceAndNotLoggedIn)
    );
}

#[test]
fn source_precedence() {
    let explicit = opts(false, false, false, false, true);
    let none = opts(false, false, false, false, false);
    assert_eq!(explicit.get_source_id(&cfg(Some("dflt"))), Some("src-1".to_string()));
    assert_eq!(explicit.get_source_id(&cfg(None)), Some("src-1".to_string()));
    assert_eq!(none.get_source_id(&cfg(Some("dflt"))), Some("dflt".to_string()));
    assert_eq!(none.get_source_id(&cfg(None)), None);
    assert_eq!(
        select(&explicit, &cfg(Some("dflt")), true),
        Ok(EndpointSelection::Source { source_id: "src-1".to_string() })
    );
    assert_eq!(
        select(&none, &cfg(Some("dflt")), true),
        Ok(EndpointSelection::Source { source_id: "dflt".to_string() })
    );
    assert_eq!(select(&none, &cfg(None), true), Ok(EndpointSelection::Session));
    assert_eq!(select(&none, &cfg(None), false), Err(UsageError::NoSourceAndNotLoggedIn));
}

#[test]
fn integration_ignores_default_source_and_session() {
    let o = opts(false, true, true, true, false);
    let expected = EndpointSelection::Integration {
        collective: "family".to_string(),
        credential: Credential::HeaderAuth("X-Key".to_string(), "secret".to_string()),
    };
    assert_eq!(select(&o, &cfg(Some("dflt")), true), Ok(expected.clone()));
    assert_eq!(select(&o, &cfg(None), false), Ok(expected));
}

#[test]
fn upload_urls() {
    let integration = EndpointSelection::Integration {
        collective: "family".to_string(),
        credential: Credential::Anonymous,
    };
    assert_eq!(
        integration.upload_url("http://localhost:7880"),
        "http://localhost:7880/api/v1/open/integration/item/family"
    );
    let source = EndpointSelection::Source { source_id: "src-1".to_string() };
    assert_eq!(
        source.upload_url("https://docs.example.com"),
        "https://docs.example.com/api/v1/open/upload/item/src-1"
    );
    assert_eq!(
        EndpointSelection::Session.upload_url("http://localhost:7880"),
        "http://localhost:7880/api/v1/sec/upload/item"
    );
    assert_eq!(EndpointSelection::Session.upload_url(""), "/api/v1/sec/upload/item");
}

#[test]
fn credential_from_options() {
    assert_eq!(Credential::from_options(&None, &None), Credential::Anonymous);
    assert_eq!(
        Credential::from_options(&Some(pair("u", "p")), &None),
        Credential::BasicAuth("u".to_string(), "p".to_string())
    );
    assert_eq!(
        Credential::from_options(&None, &Some(pair("h", "v"))),
        Credential::HeaderAuth("h".to_string(), "v".to_string())
    );
    let c = Credential::SessionToken("abc".to_string());
    assert_eq!(c.clone(), c);
}

#[test]
fn usage_error_messages() {
    assert_eq!(UsageError::AmbiguousCredential.message(), "ambiguous credential");
    assert_eq!(
        UsageError::CollectiveRequired.message(),
        "collective required for integration endpoint"
    );
    assert_eq!(
        UsageError::SourceWithIntegration.message(),
        "source id not allowed with integration endpoint"
    );
    assert_eq!(
        UsageError::CredentialWithoutIntegration.message(),
        "credential requires integration endpoint"
    );
    assert_eq!(UsageError::NoSourceAndNotLoggedIn.message(), "no source id and not logged in");
    assert_eq!(
        UsageError::SingleItemWithTraversal.message(),
        "single item not possible with recursive traversal"
    );
}

#[test]
fn checkfile_urls() {
    let integration = EndpointSelection::Integration {
        collective: "family".to_string(),
        credential: Credential::Anonymous,
    };
    assert_eq!(
        integration.checkfile_url("http://localhost:7880", "abc123"),
        "http://localhost:7880/api/v1/open/integration/checkfile/family/abc123"
    );
    let source = EndpointSelection::Source { source_id: "src-1".to_string() };
    assert_eq!(
        source.checkfile_url("http://localhost:7880", "abc123"),
        "http://localhost:7880/api/v1/open/checkfile/src-1/abc123"
    );
    assert_eq!(
        EndpointSelection::Session.checkfile_url("http://localhost:7880", "abc123"),
        "http://localhost:7880/api/v1/sec/checkfile/abc123"
    );
}

#[test]
fn description_leaves_the_secret_out() {
    assert_eq!(Credential::Anonymous.describe(), "no credential");
    assert_eq!(Credential::SessionToken("s3cret".to_string()).describe(), "session token");
    assert_eq!(
        Credential::BasicAuth("user".to_string(), "s3cret".to_string()).describe(),
        "basic auth of user"
    );
    assert_eq!(
        Credential::HeaderAuth("X-Key".to_string(), "s3cret".to_string()).describe(),
        "header X-Key"
    );
}
