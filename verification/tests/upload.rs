use dsc::config::DsConfig;
use dsc::endpoint::EndpointSelection;
use dsc::error::UsageError;
use dsc::opts::{
    CommonOpts, Direction, EndpointOpts, Format, LogLevel, MainOpts, SubCommand, UploadInput, UploadMeta,
};
use dsc::upload::{plan, prepare};

fn files(names: &[&str]) -> Vec<String> {
    names.iter().map(|n| n.to_string()).collect()
}

fn endpoint() -> EndpointOpts {
    EndpointOpts { basic: None, header: None, integration: false, collective: None, source: Some("src-1".to_string()) }
}

#[test]
fn defaults_of_upload_meta() {
    let meta = UploadMeta::default();
    assert!(meta.multiple);
    assert!(meta.skip_duplicates);
    assert!(meta.tag.is_empty());
    assert_eq!(meta.direction, None);
    assert_eq!(meta.folder, None);
    assert_eq!(meta.file_filter, None);
    assert_eq!(meta.language, None);
}

#[test]
fn three_files_are_three_requests() {
    let plan = plan(&files(&["a.pdf", "b.pdf", "c.pdf"]), &UploadMeta::default(), false).unwrap();
    assert_eq!(plan.batches, vec![files(&["a.pdf"]), files(&["b.pdf"]), files(&["c.pdf"])]);
    assert_eq!(plan.batches.len(), 3);
    assert!(plan.skip_duplicates);
    assert!(plan.tags.is_empty());
}

#[test]
fn single_item_is_one_request() {
    let mut meta = UploadMeta::default();
    meta.multiple = false;
    let plan = plan(&files(&["a.pdf", "b.pdf", "c.pdf"]), &meta, false).unwrap();
    assert_eq!(plan.batches, vec![files(&["a.pdf", "b.pdf", "c.pdf"])]);
    assert_eq!(plan.batches.len(), 1);
}

#[test]
fn single_item_with_traversal_is_refused() {
    let mut meta = UploadMeta::default();
    meta.multiple = false;
    assert_eq!(
        plan(&files(&["a.pdf", "b.pdf", "c.pdf"]), &meta, true),
        Err(UsageError::SingleItemWithTraversal)
    );
    assert_eq!(plan(&files(&[]), &meta, true), Err(UsageError::SingleItemWithTraversal));
}

#[test]
fn traversal_with_one_item_for_each_file() {
    let plan = plan(&files(&["dir/a.pdf", "dir/b.pdf"]), &UploadMeta::default(), true).unwrap();
    assert_eq!(plan.batches, vec![files(&["dir/a.pdf"]), files(&["dir/b.pdf"])]);
}

#[test]
fn no_files() {
    let plan_multiple = plan(&files(&[]), &UploadMeta::default(), false).unwrap();
    assert_eq!(plan_multiple.batches, Vec::<Vec<String>>::new());
    let mut meta = UploadMeta::default();
    meta.multiple = false;
    let plan_single = plan(&files(&[]), &meta, false).unwrap();
    assert_eq!(plan_single.batches, vec![Vec::<String>::new()]);
}

#[test]
fn duplicates_flag_is_handed_on() {
    let mut meta = UploadMeta::default();
    meta.skip_duplicates = false;
    assert!(!plan(&files(&["a", "a"]), &meta, false).unwrap().skip_duplicates);
    assert_eq!(plan(&files(&["a", "a"]), &meta, false).unwrap().batches, vec![files(&["a"]), files(&["a"])]);
}

#[test]
fn tags_keep_order_and_duplicates() {
    let mut meta = UploadMeta::default();
    meta.tag = files(&["invoice", "2021", "invoice", "Äpfel"]);
    let plan = plan(&files(&["a"]), &meta, false).unwrap();
    assert_eq!(plan.tags, files(&["invoice", "2021", "invoice", "Äpfel"]));
}

fn input(endpoint: EndpointOpts, multiple: bool, traverse: bool) -> UploadInput {
    let mut upload = UploadMeta::default();
    upload.multiple = multiple;
    UploadInput { endpoint, upload, traverse, files: files(&["a", "b", "c"]) }
}

#[test]
fn prepare_selects_and_plans() {
    let upload = prepare(&input(endpoint(), true, false), &DsConfig::new(), false).unwrap();
    assert_eq!(upload.selection, EndpointSelection::Source { source_id: "src-1".to_string() });
    assert_eq!(upload.plan.batches.len(), 3);
    let upload = prepare(&input(endpoint(), false, false), &DsConfig::new(), false).unwrap();
    assert_eq!(upload.plan.batches.len(), 1);
}

#[test]
fn prepare_refuses_before_anything_is_planned() {
    let mut integration = endpoint();
    integration.integration = true;
    integration.source = None;
    assert_eq!(
        prepare(&input(integration, true, false), &DsConfig::new(), true),
        Err(UsageError::CollectiveRequired)
    );
    // the rules on endpoints come before the rule on single items
    let mut nothing = endpoint();
    nothing.source = None;
    assert_eq!(
        prepare(&input(nothing, false, true), &DsConfig::new(), false),
        Err(UsageError::NoSourceAndNotLoggedIn)
    );
    assert_eq!(
        prepare(&input(endpoint(), false, true), &DsConfig::new(), false),
        Err(UsageError::SingleItemWithTraversal)
    );
}

#[test]
fn direction_values() {
    assert_eq!(Direction::In.to_value(), "incoming");
    assert_eq!(Direction::Out.to_value(), "outgoung");
}

fn common(format: Option<Format>, url: Option<&str>) -> CommonOpts {
    CommonOpts { verbose: 0, format, docspell_url: url.map(|u| u.to_string()), session: None }
}

#[test]
fn default_configuration() {
    let cfg = DsConfig::new();
    assert_eq!(cfg.docspell_url, "http://localhost:7880");
    assert_eq!(cfg.default_source_id, None);
    assert_eq!(cfg.default_format, None);
    assert_eq!(cfg.session_path, None);
}

#[test]
fn command_line_wins_over_configuration() {
    let mut cfg = DsConfig::new();
    assert_eq!(common(None, None).output_format(&cfg), Format::Tabular);
    assert_eq!(common(Some(Format::Json), None).output_format(&cfg), Format::Json);
    cfg.default_format = Some(Format::Csv);
    assert_eq!(common(None, None).output_format(&cfg), Format::Csv);
    assert_eq!(common(Some(Format::Lisp), None).output_format(&cfg), Format::Lisp);
    assert_eq!(common(None, None).server_url(&cfg), "http://localhost:7880");
    assert_eq!(common(None, Some("https://docs.example.com")).server_url(&cfg), "https://docs.example.com");
    cfg.docspell_url = "http://configured".to_string();
    assert_eq!(common(None, None).server_url(&cfg), "http://configured");
    assert_eq!(common(None, Some("http://given")).server_url(&cfg), "http://given");
}

#[test]
fn configuration_file_from_command_line_or_environment() {
    let opts = |config: Option<&str>| MainOpts {
        config: config.map(|c| c.to_string()),
        common_opts: common(None, None),
        subcmd: SubCommand::Version,
    };
    let env = Some("/env/dsc.toml".to_string());
    assert_eq!(opts(Some("/cli/dsc.toml")).config_file(&env), Some("/cli/dsc.toml".to_string()));
    assert_eq!(opts(None).config_file(&env), Some("/env/dsc.toml".to_string()));
    assert_eq!(opts(Some("/cli/dsc.toml")).config_file(&None), Some("/cli/dsc.toml".to_string()));
    assert_eq!(opts(None).config_file(&None), None);
}

#[test]
fn each_verbose_is_one_level_more() {
    let level = |verbose: i32| {
        CommonOpts { verbose, format: None, docspell_url: None, session: None }.log_level()
    };
    assert_eq!(level(0), LogLevel::Warn);
    assert_eq!(level(1), LogLevel::Info);
    assert_eq!(level(2), LogLevel::Debug);
    assert_eq!(level(3), LogLevel::Trace);
    assert_eq!(level(i32::MAX), LogLevel::Trace);
    assert_eq!(level(-1), LogLevel::Warn);
}
