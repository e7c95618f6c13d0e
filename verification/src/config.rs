//! The configuration of a run: the ignore policy and the registry of tracked
//! languages, with the checks that turn a parsed configuration into a usable
//! one.

use crate::defaults::{
    default_excluded_patterns, default_ignored_directories, default_ignored_files,
    default_languages, entries_of, excluded_patterns, ignore_dotfiles, ignore_dotfolders,
    ignore_empty_lines, ignored_directories, ignored_files, is_plain,
    lemma_default_displays_distinct, respect_gitignore, tracked_languages, use_color,
};
use crate::pattern::{regex_accepts, regex_source};
use crate::text::{lowercase_of, lowered, texts_of};
use regex::Regex;
use vstd::prelude::*;
use vstd::string::StringExecFns;

verus! {

/// A tracked language: a display name, the file extensions that belong to it,
/// and the patterns of lines that do not count in its files.
#[derive(Clone, Debug)]
pub struct TrackedLanguage {
    /// The name under which the language is reported; no two languages of a
    /// registry share one.
    pub display: String,
    /// The file extensions of the language, without the dot. They are compared
    /// in lower case, whatever their case here.
    pub extensions: Vec<String>,
    /// The colour of the language's bar, as a hexadecimal code.
    pub color: Option<String>,
    /// The texts of the patterns of lines that do not count in this language.
    pub excluded_patterns: Vec<String>,
    /// The patterns, compiled: what counting uses. The library fills this list
    /// with expressions made by `Regex::new`, and its contracts speak of such
    /// expressions only: of one built with other options they say what holds
    /// of the text that it stands for, which is then not the text that
    /// `Regex::as_str` returns.
    pub compiled_excluded_patterns: Vec<Regex>,
}

/// The ignore policy and the registry of tracked languages.
#[derive(Clone, Debug)]
pub struct Config {
    pub use_color: bool,
    pub respect_gitignore: bool,
    pub ignore_dotfolders: bool,
    pub ignored_directories: Vec<String>,
    pub ignore_dotfiles: bool,
    pub ignored_files: Vec<String>,
    pub ignore_empty_lines: bool,
    /// The texts of the patterns of lines that count in no language.
    pub excluded_patterns: Vec<String>,
    /// The registry of tracked languages.
    pub languages: Vec<TrackedLanguage>,
    /// The global patterns, compiled: what counting uses. The library fills
    /// this list with expressions made by `Regex::new`, and its contracts
    /// speak of such expressions only: of one built with other options they
    /// say what holds of the text that it stands for, which is then not the
    /// text that `Regex::as_str` returns.
    pub compiled_excluded_patterns: Vec<Regex>,
}

/// Why a configuration could not be loaded.
#[derive(Clone, Debug)]
pub enum ConfigLoadError {
    FileReadFailed,
    TomlParseFailed,
    RegexCompileFailed(String),
    DuplicateTrackedDisplay(String),
}

/// What a `ConfigLoadError` says, with its texts as character sequences.
pub enum LoadFailure {
    FileReadFailed,
    TomlParseFailed,
    RegexCompileFailed(Seq<char>),
    DuplicateTrackedDisplay(Seq<char>),
}

impl View for ConfigLoadError {
    type V = LoadFailure;

    open spec fn view(&self) -> LoadFailure {
        match self {
            ConfigLoadError::FileReadFailed => LoadFailure::FileReadFailed,
            ConfigLoadError::TomlParseFailed => LoadFailure::TomlParseFailed,
            ConfigLoadError::RegexCompileFailed(pattern) => LoadFailure::RegexCompileFailed(
                pattern@,
            ),
            ConfigLoadError::DuplicateTrackedDisplay(display) => {
                LoadFailure::DuplicateTrackedDisplay(display@)
            },
        }
    }
}

/// Whether `compiled` holds, in order, one expression for each pattern text.
pub open spec fn patterns_compiled(sources: Seq<String>, compiled: Seq<Regex>) -> bool {
    &&& compiled.len() == sources.len()
    &&& forall|i: int| 0 <= i < sources.len() ==> regex_source(#[trigger] compiled[i]) == sources[i]@
}

/// The first pattern text at or after `from` that does not compile, if any.
pub open spec fn first_rejected(patterns: Seq<String>, from: int) -> Option<int>
    decreases patterns.len() - from,
{
    if from < 0 || from >= patterns.len() {
        None
    } else if !regex_accepts(patterns[from]@) {
        Some(from)
    } else {
        first_rejected(patterns, from + 1)
    }
}

/// Compiles every pattern text, in order, and stops at the first that the
/// `regex` crate rejects.
pub fn compile_regexes(excluded_patterns: &Vec<String>) -> (res: Result<Vec<Regex>, ConfigLoadError>)
    ensures
        match res {
            Ok(compiled) => first_rejected(excluded_patterns@, 0) is None && patterns_compiled(
                excluded_patterns@,
                compiled@,
            ),
            Err(e) => first_rejected(excluded_patterns@, 0) matches Some(k) && e@
                == LoadFailure::RegexCompileFailed(excluded_patterns@[k]@),
        },
{
    let mut compiled_patterns: Vec<Regex> = Vec::with_capacity(excluded_patterns.len());
    let mut i: usize = 0;
    while i < excluded_patterns.len()
        invariant
            i <= excluded_patterns.len(),
            compiled_patterns@.len() == i,
            first_rejected(excluded_patterns@, 0) == first_rejected(excluded_patterns@, i as int),
            forall|j: int|
                0 <= j < i ==> regex_source(#[trigger] compiled_patterns@[j])
                    == excluded_patterns@[j]@,
        decreases excluded_patterns.len() - i,
    {
        match Regex::new(excluded_patterns[i].as_str()) {
            Ok(regex) => {
                compiled_patterns.push(regex);
            },
            Err(_) => {
                return Err(ConfigLoadError::RegexCompileFailed(excluded_patterns[i].clone()));
            },
        }
        i += 1;
    }
    Ok(compiled_patterns)
}

impl ConfigLoadError {
    /// What the error says, as a sentence for the user.
    pub open spec fn message_of(failure: LoadFailure) -> Seq<char> {
        match failure {
            LoadFailure::FileReadFailed => "failed to read the config file"@,
            LoadFailure::TomlParseFailed => "failed to parse the config file as TOML"@,
            LoadFailure::RegexCompileFailed(pattern) => "failed to compile regex pattern: '"@
                + pattern + "'"@,
            LoadFailure::DuplicateTrackedDisplay(display) => "duplicate tracked display found: '"@
                + display + "'"@,
        }
    }

    /// Puts the error into words.
    pub fn message(&self) -> (text: String)
        ensures
            text@ == Self::message_of(self@),
    {
        match self {
            ConfigLoadError::FileReadFailed => String::from_str("failed to read the config file"),
            ConfigLoadError::TomlParseFailed => String::from_str(
                "failed to parse the config file as TOML",
            ),
            ConfigLoadError::RegexCompileFailed(pattern) => {
                let mut text = String::from_str("failed to compile regex pattern: '");
                text.append(pattern.as_str());
                text.append("'");
                text
            },
            ConfigLoadError::DuplicateTrackedDisplay(display) => {
                let mut text = String::from_str("duplicate tracked display found: '");
                text.append(display.as_str());
                text.append("'");
                text
            },
        }
    }
}

impl TrackedLanguage {
    /// The extension set of the language: the lower-case forms of the
    /// extensions it lists. This is what the library reads a language's
    /// extensions as, wherever it compares them; how often and in what case
    /// the list spells an extension makes no difference.
    pub open spec fn extension_set(&self) -> Set<Seq<char>> {
        lowered(self.extensions@).to_set()
    }

    /// Whether the compiled patterns are those of the pattern texts.
    pub open spec fn wf(&self) -> bool {
        patterns_compiled(self.excluded_patterns@, self.compiled_excluded_patterns@)
    }

    /// Whether `other` is this language but for its compiled patterns.
    pub open spec fn same_settings(&self, other: TrackedLanguage) -> bool {
        &&& self.display == other.display
        &&& self.extensions == other.extensions
        &&& self.color == other.color
        &&& self.excluded_patterns == other.excluded_patterns
    }
}

/// Whether an earlier language of the registry has the display name of the
/// language at position `l`.
pub open spec fn display_seen_before(languages: Seq<TrackedLanguage>, l: int) -> bool {
    exists|j: int| 0 <= j < l && (#[trigger] languages[j]).display@ == languages[l].display@
}

/// What stops the languages at and after `from` from being accepted, looking
/// at each in turn: a display name that an earlier language has, or else the
/// first of its patterns that does not compile.
pub open spec fn registry_failure(languages: Seq<TrackedLanguage>, from: int) -> Option<LoadFailure>
    decreases languages.len() - from,
{
    if from < 0 || from >= languages.len() {
        None
    } else if display_seen_before(languages, from) {
        Some(LoadFailure::DuplicateTrackedDisplay(languages[from].display@))
    } else {
        match first_rejected(languages[from].excluded_patterns@, 0) {
            Some(k) => Some(LoadFailure::RegexCompileFailed(languages[from].excluded_patterns@[k]@)),
            None => registry_failure(languages, from + 1),
        }
    }
}

/// What stops a parsed configuration from being accepted: the first global
/// pattern that does not compile, or else the first fault in the registry.
pub open spec fn load_failure(config: Config) -> Option<LoadFailure> {
    match first_rejected(config.excluded_patterns@, 0) {
        Some(k) => Some(LoadFailure::RegexCompileFailed(config.excluded_patterns@[k]@)),
        None => registry_failure(config.languages@, 0),
    }
}

/// Whether every extension of the registry is written in lower case: it is
/// its own lower-case form.
pub open spec fn extensions_in_lower_case(languages: Seq<TrackedLanguage>) -> bool {
    forall|l: int, e: int|
        0 <= l < languages.len() && 0 <= e < languages[l].extensions@.len() ==> lowercase_of(
            (#[trigger] (#[trigger] languages[l]).extensions@[e])@,
        ) == languages[l].extensions@[e]@
}

/// Tells whether every extension of the registry is written in lower case.
/// The library compares extensions in lower case, so a registry that spells
/// them otherwise counts the same files.
pub fn check_extensions_in_lower_case(languages: &Vec<TrackedLanguage>) -> (lower: bool)
    ensures
        lower == extensions_in_lower_case(languages@),
{
    let mut l: usize = 0;
    while l < languages.len()
        invariant
            l <= languages@.len(),
            forall|i: int, e: int|
                0 <= i < l && 0 <= e < languages@[i].extensions@.len() ==> lowercase_of(
                    (#[trigger] (#[trigger] languages@[i]).extensions@[e])@,
                ) == languages@[i].extensions@[e]@,
        decreases languages@.len() - l,
    {
        let own = &languages[l].extensions;
        let mut e: usize = 0;
        while e < own.len()
            invariant
                l < languages@.len(),
                own@ == languages@[l as int].extensions@,
                e <= own@.len(),
                forall|k: int| 0 <= k < e ==> lowercase_of((#[trigger] own@[k])@) == own@[k]@,
            decreases own@.len() - e,
        {
            if own[e].as_str().to_lowercase() != own[e] {
                assert(lowercase_of(languages@[l as int].extensions@[e as int]@)
                    != languages@[l as int].extensions@[e as int]@);
                return false;
            }
            e += 1;
        }
        l += 1;
    }
    true
}

/// Whether no two languages share a display name.
pub open spec fn displays_unique(languages: Seq<TrackedLanguage>) -> bool {
    forall|i: int, j: int|
        0 <= i < j < languages.len() ==> (#[trigger] languages[i]).display@ != (
        #[trigger] languages[j]).display@
}

/// Tells whether an earlier language has the display name of the language at
/// position `l`.
fn seen_before(languages: &Vec<TrackedLanguage>, l: usize) -> (seen: bool)
    requires
        l < languages@.len(),
    ensures
        seen == display_seen_before(languages@, l as int),
{
    let mut j: usize = 0;
    while j < l
        invariant
            j <= l < languages@.len(),
            forall|k: int|
                0 <= k < j ==> (#[trigger] languages@[k]).display@ != languages@[l as int].display@,
        decreases l - j,
    {
        if languages[j].display == languages[l].display {
            return true;
        }
        j += 1;
    }
    false
}

impl Config {
    /// Whether the configuration is ready for use: every pattern text has its
    /// compiled pattern, and no two languages share a display name.
    pub open spec fn wf(&self) -> bool {
        &&& patterns_compiled(self.excluded_patterns@, self.compiled_excluded_patterns@)
        &&& forall|l: int| 0 <= l < self.languages@.len() ==> (#[trigger] self.languages@[l]).wf()
        &&& displays_unique(self.languages@)
    }

    /// Whether `other` is this configuration but for its compiled patterns.
    pub open spec fn same_settings(&self, other: Config) -> bool {
        &&& self.use_color == other.use_color
        &&& self.respect_gitignore == other.respect_gitignore
        &&& self.ignore_dotfolders == other.ignore_dotfolders
        &&& self.ignored_directories == other.ignored_directories
        &&& self.ignore_dotfiles == other.ignore_dotfiles
        &&& self.ignored_files == other.ignored_files
        &&& self.ignore_empty_lines == other.ignore_empty_lines
        &&& self.excluded_patterns == other.excluded_patterns
        &&& self.languages@.len() == other.languages@.len()
        &&& forall|l: int|
            0 <= l < self.languages@.len() ==> (#[trigger] self.languages@[l]).same_settings(
                other.languages@[l],
            )
    }

    /// Makes a parsed configuration ready for use: compiles the global
    /// patterns, then goes through the registry, rejecting a display name
    /// that occurred before and compiling each language's patterns. The first
    /// fault met is the error. Extensions stay as they were written: the
    /// library lowers them wherever it compares them.
    pub fn load(parsed: Config) -> (res: Result<Config, ConfigLoadError>)
        ensures
            match res {
                Ok(config) => load_failure(parsed) is None && config.wf() && config.same_settings(
                    parsed,
                ),
                Err(e) => load_failure(parsed) == Some(e@),
            },
    {
        let mut config = parsed;
        config.compiled_excluded_patterns = compile_regexes(&config.excluded_patterns)?;
        let mut l: usize = 0;
        while l < config.languages.len()
            invariant
                l <= config.languages@.len(),
                config.same_settings(parsed),
                patterns_compiled(config.excluded_patterns@, config.compiled_excluded_patterns@),
                first_rejected(parsed.excluded_patterns@, 0) is None,
                registry_failure(parsed.languages@, 0) == registry_failure(
                    parsed.languages@,
                    l as int,
                ),
                forall|k: int| 0 <= k < l ==> (#[trigger] config.languages@[k]).wf(),
                forall|k: int| 0 <= k < l ==> !display_seen_before(parsed.languages@, k),
            decreases config.languages@.len() - l,
        {
            proof {
                assert(config.languages@[l as int].same_settings(parsed.languages@[l as int]));
                assert forall|j: int| 0 <= j < l implies (#[trigger] config.languages@[j]).display
                    == parsed.languages@[j].display by {
                    assert(config.languages@[j].same_settings(parsed.languages@[j]));
                }
            }
            if seen_before(&config.languages, l) {
                proof {
                    let j = choose|j: int|
                        0 <= j < l && (#[trigger] config.languages@[j]).display@
                            == config.languages@[l as int].display@;
                    assert(parsed.languages@[j].display@ == parsed.languages@[l as int].display@);
                }
                return Err(
                    ConfigLoadError::DuplicateTrackedDisplay(config.languages[l].display.clone()),
                );
            }
            proof {
                if display_seen_before(parsed.languages@, l as int) {
                    let j = choose|j: int|
                        0 <= j < l && (#[trigger] parsed.languages@[j]).display@
                            == parsed.languages@[l as int].display@;
                    assert(config.languages@[j].display@ == config.languages@[l as int].display@);
                }
            }
            let ghost before = config;
            let compiled = compile_regexes(&config.languages[l].excluded_patterns)?;
            config.languages[l].compiled_excluded_patterns = compiled;
            proof {
                assert forall|k: int| 0 <= k < config.languages@.len() implies (
                #[trigger] config.languages@[k]).same_settings(parsed.languages@[k]) by {
                    assert(before.languages@[k].same_settings(parsed.languages@[k]));
                }
                assert forall|k: int| 0 <= k < l + 1 implies (#[trigger] config.languages@[k]).wf() by {
                    if k < l {
                        assert(before.languages@[k].wf());
                    }
                }
            }
            l += 1;
        }
        proof {
            assert forall|i: int, j: int| 0 <= i < j < config.languages@.len() implies (
            #[trigger] config.languages@[i]).display@ != (#[trigger] config.languages@[j]).display@ by {
                assert(!display_seen_before(parsed.languages@, j));
                assert(config.languages@[i].same_settings(parsed.languages@[i]));
                assert(config.languages@[j].same_settings(parsed.languages@[j]));
            }
        }
        Ok(config)
    }

    /// Settles on the configuration of a run from what reading and parsing the
    /// user's configuration file gave: that configuration where it can be
    /// made ready for use, the built-in one otherwise. The flag tells whether
    /// the user's configuration is the one in use.
    pub fn from_config(parsed: Result<Config, ConfigLoadError>) -> (res: (Config, bool))
        ensures
            res.1 <==> (parsed matches Ok(raw) && load_failure(raw) is None),
            res.1 ==> res.0.wf() && res.0.same_settings(parsed->Ok_0),
            !res.1 ==> is_default(res.0),
    {
        match parsed {
            Ok(raw) => match Config::load(raw) {
                Ok(config) => (config, true),
                Err(_) => (Config::default(), false),
            },
            Err(_) => (Config::default(), false),
        }
    }
}

/// Whether a configuration is the built-in one. Its global patterns are
/// compiled where all of them compile; otherwise it has no compiled pattern.
pub open spec fn is_default(config: Config) -> bool {
    &&& !config.use_color
    &&& config.respect_gitignore
    &&& config.ignore_dotfolders
    &&& texts_of(config.ignored_directories@) == default_ignored_directories()
    &&& config.ignore_dotfiles
    &&& texts_of(config.ignored_files@) == default_ignored_files()
    &&& config.ignore_empty_lines
    &&& texts_of(config.excluded_patterns@) == default_excluded_patterns()
    &&& entries_of(config.languages@) == default_languages()
    &&& forall|l: int| 0 <= l < config.languages@.len() ==> is_plain(#[trigger] config.languages@[l])
    &&& if first_rejected(config.excluded_patterns@, 0) is None {
        patterns_compiled(config.excluded_patterns@, config.compiled_excluded_patterns@)
    } else {
        config.compiled_excluded_patterns@.len() == 0
    }
}

/// The built-in configuration is ready for use where its global patterns
/// compile: its languages have no patterns to compile, and no two of them
/// share a display name.
pub proof fn lemma_default_is_ready(config: Config)
    requires
        is_default(config),
    ensures
        displays_unique(config.languages@),
        forall|l: int| 0 <= l < config.languages@.len() ==> (#[trigger] config.languages@[l]).wf(),
        first_rejected(config.excluded_patterns@, 0) is None ==> config.wf(),
{
    lemma_default_displays_distinct();
    let entries = entries_of(config.languages@);
    assert forall|i: int, j: int| 0 <= i < j < config.languages@.len() implies (
    #[trigger] config.languages@[i]).display@ != (#[trigger] config.languages@[j]).display@ by {
        assert(entries[i].display == config.languages@[i].display@);
        assert(entries[j].display == config.languages@[j].display@);
    }
    assert forall|l: int| 0 <= l < config.languages@.len() implies (
    #[trigger] config.languages@[l]).wf() by {
        assert(is_plain(config.languages@[l]));
    }
}

impl Default for Config {
    /// The built-in configuration.
    fn default() -> (config: Config)
        ensures
            is_default(config),
            first_rejected(config.excluded_patterns@, 0) is None ==> config.wf(),
    {
        let patterns = excluded_patterns();
        let compiled = match compile_regexes(&patterns) {
            Ok(compiled) => compiled,
            Err(_) => Vec::new(),
        };
        let config = Config {
            use_color: use_color(),
            respect_gitignore: respect_gitignore(),
            ignore_dotfolders: ignore_dotfolders(),
            ignored_directories: ignored_directories(),
            ignore_dotfiles: ignore_dotfiles(),
            ignored_files: ignored_files(),
            ignore_empty_lines: ignore_empty_lines(),
            excluded_patterns: patterns,
            languages: tracked_languages(),
            compiled_excluded_patterns: compiled,
        };
        proof {
            lemma_default_is_ready(config);
        }
        config
    }
}

/// What the command line asks to change in a configuration: switches to set,
/// and names and patterns to add to the lists.
#[derive(Clone, Debug)]
pub struct CliOverrides {
    pub use_color: Option<bool>,
    pub respect_gitignore: Option<bool>,
    pub ignore_dotfolders: Option<bool>,
    pub ignore_dotfiles: Option<bool>,
    pub ignore_empty_lines: Option<bool>,
    pub ignored_directories: Vec<String>,
    pub ignored_files: Vec<String>,
    pub excluded_patterns: Vec<String>,
}

/// A switch after an override: the override where one is given.
pub open spec fn overridden(current: bool, wanted: Option<bool>) -> bool {
    match wanted {
        Some(value) => value,
        None => current,
    }
}

/// What the user is told where a pattern from the command line does not
/// compile.
pub open spec fn override_failure_message(pattern: Seq<char>) -> Seq<char> {
    "Failed to compile regex pattern: '"@ + pattern + "'"@
}

/// Appends copies of the texts in `more` to `list`.
pub fn extend_texts(list: &mut Vec<String>, more: &Vec<String>)
    ensures
        final(list)@ == old(list)@ + more@,
{
    let mut i: usize = 0;
    while i < more.len()
        invariant
            i <= more.len(),
            list@ == old(list)@ + more@.take(i as int),
        decreases more.len() - i,
    {
        list.push(more[i].clone());
        proof {
            assert(list@ =~= old(list)@ + more@.take(i + 1));
        }
        i += 1;
    }
    proof {
        assert(more@.take(i as int) =~= more@);
    }
}

/// Applies the overrides of the command line to a configuration. Switches
/// that are given replace the configured ones; names and patterns are added
/// to the configured lists. Where patterns were added, all global patterns are
/// compiled anew; if one does not compile, the compiled patterns stay as they
/// were and the error names the pattern.
pub fn apply_cli_overrides(config: &mut Config, cli: &CliOverrides) -> (res: Result<(), String>)
    ensures
        final(config).use_color == overridden(old(config).use_color, cli.use_color),
        final(config).respect_gitignore == overridden(
            old(config).respect_gitignore,
            cli.respect_gitignore,
        ),
        final(config).ignore_dotfolders == overridden(
            old(config).ignore_dotfolders,
            cli.ignore_dotfolders,
        ),
        final(config).ignore_dotfiles == overridden(old(config).ignore_dotfiles, cli.ignore_dotfiles),
        final(config).ignore_empty_lines == overridden(
            old(config).ignore_empty_lines,
            cli.ignore_empty_lines,
        ),
        final(config).ignored_directories@ == old(config).ignored_directories@
            + cli.ignored_directories@,
        final(config).ignored_files@ == old(config).ignored_files@ + cli.ignored_files@,
        final(config).excluded_patterns@ == old(config).excluded_patterns@ + cli.excluded_patterns@,
        final(config).languages == old(config).languages,
        res is Ok <==> (cli.excluded_patterns@.len() == 0 || first_rejected(
            final(config).excluded_patterns@,
            0,
        ) is None),
        match res {
            Ok(_) => if cli.excluded_patterns@.len() == 0 {
                final(config).compiled_excluded_patterns == old(config).compiled_excluded_patterns
            } else {
                patterns_compiled(
                    final(config).excluded_patterns@,
                    final(config).compiled_excluded_patterns@,
                )
            },
            Err(message) => {
                &&& final(config).compiled_excluded_patterns == old(
                    config,
                ).compiled_excluded_patterns
                &&& first_rejected(final(config).excluded_patterns@, 0) matches Some(k)
                &&& message@ == override_failure_message(final(config).excluded_patterns@[k]@)
            },
        },
{
    if let Some(use_color) = cli.use_color {
        config.use_color = use_color;
    }
    if let Some(respect_gitignore) = cli.respect_gitignore {
        config.respect_gitignore = respect_gitignore;
    }
    if let Some(ignore_dotfolders) = cli.ignore_dotfolders {
        config.ignore_dotfolders = ignore_dotfolders;
    }
    if let Some(ignore_dotfiles) = cli.ignore_dotfiles {
        config.ignore_dotfiles = ignore_dotfiles;
    }
    if let Some(ignore_empty_lines) = cli.ignore_empty_lines {
        config.ignore_empty_lines = ignore_empty_lines;
    }
    if !cli.ignored_directories.is_empty() {
        extend_texts(&mut config.ignored_directories, &cli.ignored_directories);
    }
    if !cli.ignored_files.is_empty() {
        extend_texts(&mut config.ignored_files, &cli.ignored_files);
    }
    if !cli.excluded_patterns.is_empty() {
        extend_texts(&mut config.excluded_patterns, &cli.excluded_patterns);
        match compile_regexes(&config.excluded_patterns) {
            Ok(compiled) => {
                config.compiled_excluded_patterns = compiled;
            },
            Err(e) => {
                let mut message = String::from_str("Failed to compile regex pattern: '");
                match e {
                    ConfigLoadError::RegexCompileFailed(pattern) => {
                        message.append(pattern.as_str());
                    },
                    _ => {},
                }
                message.append("'");
                return Err(message);
            },
        }
    }
    Ok(())
}

} // verus!
