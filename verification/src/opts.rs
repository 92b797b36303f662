//! The options a command is invoked with.

use crate::config::{first_present, prefer, DsConfig};
use vstd::prelude::*;
use vstd::string::*;

verus! {

/// All that the command line says.
#[derive(Debug)]
pub struct MainOpts {
    /// The configuration file to load. The environment may name one too.
    /// Without either the file is looked up where the system suggests,
    /// and without a file the default configuration applies.
    pub config: Option<String>,
    pub common_opts: CommonOpts,
    pub subcmd: SubCommand,
}

impl MainOpts {
    /// The configuration file that is named: on the command line, else in
    /// the environment.
    pub fn config_file(&self, environment: &Option<String>) -> (path: Option<String>)
        ensures
            path == first_present(self.config, *environment),
    {
        prefer(&self.config, environment)
    }
}

/// How much is logged.
#[derive(Debug, Clone, Copy, PartialEq, Eq, Structural)]
pub enum LogLevel {
    Warn,
    Info,
    Debug,
    Trace,
}

/// The options that every command has.
#[derive(Debug)]
pub struct CommonOpts {
    /// How often more logging was asked for.
    pub verbose: i32,
    /// How to render the result.
    pub format: Option<Format>,
    /// The base URL of the server.
    pub docspell_url: Option<String>,
    /// A session token to use in place of the stored one.
    pub session: Option<String>,
}

impl CommonOpts {
    /// How much is logged after more logging was asked for `verbose`
    /// times: warnings at first, and one level more with each time.
    pub open spec fn level_of(verbose: i32) -> LogLevel {
        if verbose <= 0 {
            LogLevel::Warn
        } else if verbose == 1 {
            LogLevel::Info
        } else if verbose == 2 {
            LogLevel::Debug
        } else {
            LogLevel::Trace
        }
    }

    /// Returns how much is logged.
    pub fn log_level(&self) -> (level: LogLevel)
        ensures
            level == Self::level_of(self.verbose),
    {
        if self.verbose <= 0 {
            LogLevel::Warn
        } else if self.verbose == 1 {
            LogLevel::Info
        } else if self.verbose == 2 {
            LogLevel::Debug
        } else {
            LogLevel::Trace
        }
    }

    /// The format to render with: the one given on the command line, else
    /// the configured one, else a table.
    pub open spec fn effective_format(self, cfg: DsConfig) -> Format {
        match first_present(self.format, cfg.default_format) {
            Some(format) => format,
            None => Format::Tabular,
        }
    }

    /// Returns the format to render with.
    pub fn output_format(&self, cfg: &DsConfig) -> (format: Format)
        ensures
            format == self.effective_format(*cfg),
    {
        match self.format {
            Some(format) => format,
            None => match cfg.default_format {
                Some(format) => format,
                None => Format::Tabular,
            },
        }
    }

    /// Returns the base URL of the server: the one given on the command
    /// line, else the configured one.
    pub fn server_url(&self, cfg: &DsConfig) -> (url: String)
        ensures
            url == match self.docspell_url {
                Some(given) => given,
                None => cfg.docspell_url,
            },
    {
        match &self.docspell_url {
            Some(given) => given.clone(),
            None => cfg.docspell_url.clone(),
        }
    }
}

/// The commands.
#[derive(Debug)]
pub enum SubCommand {
    WriteDefaultConfig,
    GenerateCompletions,
    Watch(WatchInput),
    Version,
    Login,
    Logout,
    Search,
    SearchSummary,
    FileExists(FileExistsInput),
    GenInvite,
    Register,
    Source,
    Item,
    Upload(UploadInput),
    Download,
    View,
    Cleanup,
    Admin,
}

/// What the upload command is given.
#[derive(Debug)]
pub struct UploadInput {
    pub endpoint: EndpointOpts,
    pub upload: UploadMeta,
    /// Whether directories among the files are walked through.
    pub traverse: bool,
    pub files: Vec<String>,
}

/// What the command that asks whether the server has some files is given.
#[derive(Debug)]
pub struct FileExistsInput {
    pub endpoint: EndpointOpts,
    pub files: Vec<String>,
}

/// What the watch command is given.
#[derive(Debug)]
pub struct WatchInput {
    pub endpoint: EndpointOpts,
    pub upload: UploadMeta,
    /// Whether the directories below the watched ones are watched too.
    pub recursive: bool,
    pub dirs: Vec<String>,
}

/// How a command renders its result.
#[derive(Debug, Clone, Copy, PartialEq, Eq, Structural)]
pub enum Format {
    Json,
    Lisp,
    Csv,
    Tabular,
}

/// A `name:value` pair. It is given as one word, and stands for the user and
/// password of basic authentication as well as for a header and its value.
#[derive(Debug, PartialEq, Eq)]
pub struct NameVal {
    pub name: String,
    pub value: String,
}

impl Clone for NameVal {
    fn clone(&self) -> (r: Self)
        ensures
            r == *self,
    {
        NameVal { name: self.name.clone(), value: self.value.clone() }
    }
}

impl NameVal {
    /// Whether `text` contains a colon.
    pub open spec fn has_colon(text: Seq<char>) -> bool {
        exists|i: int| 0 <= i < text.len() && text[i] == ':'
    }

    /// Whether `name` and `value` are the parts of `text` before and after
    /// its first colon.
    pub open spec fn splits(text: Seq<char>, name: Seq<char>, value: Seq<char>) -> bool {
        &&& text == name + seq![':'] + value
        &&& !Self::has_colon(name)
    }

    /// A text splits in one way only.
    pub proof fn lemma_splits_once(
        text: Seq<char>,
        name: Seq<char>,
        value: Seq<char>,
        other_name: Seq<char>,
        other_value: Seq<char>,
    )
        requires
            Self::splits(text, name, value),
            Self::splits(text, other_name, other_value),
        ensures
            name == other_name,
            value == other_value,
            Self::has_colon(text),
    {
        assert(text[name.len() as int] == ':');
        assert(text[other_name.len() as int] == ':');
        if name.len() < other_name.len() {
            assert(other_name[name.len() as int] == text[name.len() as int]);
        }
        if other_name.len() < name.len() {
            assert(name[other_name.len() as int] == text[other_name.len() as int]);
        }
        assert(name =~= text.subrange(0, name.len() as int));
        assert(other_name =~= text.subrange(0, name.len() as int));
        assert(value =~= text.subrange((name.len() + 1) as int, text.len() as int));
        assert(other_value =~= text.subrange((name.len() + 1) as int, text.len() as int));
    }

    /// What is reported for a `text` without a colon.
    pub open spec fn no_colon_message(text: Seq<char>) -> Seq<char> {
        "Not a key:value pair, no `:` found in '"@ + text + "'"@
    }

    /// Splits `s` at its first colon. The value may itself contain colons.
    /// A text without any colon is not a pair.
    pub fn parse(s: &str) -> (r: Result<NameVal, String>)
        ensures
            match r {
                Ok(pair) => Self::splits(s@, pair.name@, pair.value@),
                Err(message) => !Self::has_colon(s@) && message@ == Self::no_colon_message(s@),
            },
    {
        let len = s.unicode_len();
        let mut pos: usize = 0;
        let mut found = false;
        for c in it: s.chars()
            invariant
                it.seq() == s@,
                len == s@.len(),
                !found ==> pos == it.index(),
                found ==> pos < len && s@[pos as int] == ':',
                forall|j: int| 0 <= j < pos ==> s@[j] != ':',
        {
            if !found {
                if c == ':' {
                    found = true;
                } else {
                    pos = pos + 1;
                }
            }
        }
        if found {
            let name = s.substring_char(0, pos);
            let value = s.substring_char(pos + 1, len);
            assert(s@ =~= name@ + seq![':'] + value@);
            Ok(NameVal { name: name.to_owned(), value: value.to_owned() })
        } else {
            Err(String::from_str("Not a key:value pair, no `:` found in '").concat(s).concat("'"))
        }
    }
}

impl std::str::FromStr for NameVal {
    type Err = String;

    fn from_str(s: &str) -> (r: Result<Self, Self::Err>)
        ensures
            match r {
                Ok(pair) => NameVal::splits(s@, pair.name@, pair.value@),
                Err(message) => !NameVal::has_colon(s@) && message@ == NameVal::no_colon_message(s@),
            },
    {
        NameVal::parse(s)
    }
}

/// The direction of an item, as seen from the collective.
#[derive(Debug, Clone, Copy, PartialEq, Eq, Structural)]
pub enum Direction {
    In,
    Out,
}

impl Direction {
    /// The name of the direction in the upload metadata.
    pub open spec fn value(self) -> Seq<char> {
        match self {
            Direction::In => "incoming"@,
            Direction::Out => "outgoung"@,
        }
    }

    /// Returns the name of the direction in the upload metadata.
    pub fn to_value(&self) -> (name: &'static str)
        ensures
            name@ == self.value(),
    {
        match self {
            Direction::In => "incoming",
            Direction::Out => "outgoung",
        }
    }
}

/// How a command that uploads or looks up documents reaches the server.
#[derive(Debug, PartialEq, Eq)]
pub struct EndpointOpts {
    /// The user and password for the integration endpoint.
    pub basic: Option<NameVal>,
    /// The header and its value for the integration endpoint.
    pub header: Option<NameVal>,
    /// Whether to use the integration endpoint.
    pub integration: bool,
    /// The collective, which the integration endpoint requires.
    pub collective: Option<String>,
    /// The source id. Without one the configured default is used, and
    /// without that a login is required.
    pub source: Option<String>,
}

impl Clone for EndpointOpts {
    fn clone(&self) -> (r: Self)
        ensures
            r == *self,
    {
        EndpointOpts {
            basic: self.basic.clone(),
            header: self.header.clone(),
            integration: self.integration,
            collective: self.collective.clone(),
            source: self.source.clone(),
        }
    }
}

impl EndpointOpts {
    /// The source id that applies: the one given here, else the configured
    /// default, else none.
    pub fn get_source_id(&self, cfg: &DsConfig) -> (id: Option<String>)
        ensures
            id == first_present(self.source, cfg.default_source_id),
    {
        prefer(&self.source, &cfg.default_source_id)
    }
}

/// What is to become of uploaded files.
#[derive(Debug)]
pub struct UploadMeta {
    /// Whether each file becomes an item of its own. Else all files become
    /// one single item, which does not go together with traversal.
    pub multiple: bool,
    /// The direction of the item.
    pub direction: Option<Direction>,
    /// The folder to put the item in.
    pub folder: Option<String>,
    /// Whether the server skips files that it has already. The client only
    /// hands this on.
    pub skip_duplicates: bool,
    /// The tags for the item, by name or id, in the order in which they
    /// were given. A tag that was given twice is there twice.
    pub tag: Vec<String>,
    /// Which files to take out of archives.
    pub file_filter: Option<String>,
    /// The language of the document.
    pub language: Option<String>,
}

impl Default for UploadMeta {
    /// One item for each file, duplicates skipped, and nothing else said.
    fn default() -> (meta: UploadMeta)
        ensures
            meta.multiple,
            meta.skip_duplicates,
            meta.tag@.len() == 0,
            meta.direction is None,
            meta.folder is None,
            meta.file_filter is None,
            meta.language is None,
    {
        UploadMeta {
            multiple: true,
            direction: None,
            folder: None,
            skip_duplicates: true,
            tag: Vec::new(),
            file_filter: None,
            language: None,
        }
    }
}

} // verus!
