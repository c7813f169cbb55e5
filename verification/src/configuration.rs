//! What a run is configured with, and the checks on it.

use crate::paths::is_component_spec;
use crate::paths::join;
use crate::paths::join_spec;
use crate::paths::PathState;
use crate::pattern::GlobPattern;
use crate::text::equal;
use vstd::prelude::*;
use vstd::string::StringExecFns;

verus! {

/// The source or the target of the snapshots.
#[derive(Debug)]
pub struct ConfigPath {
    pub path: String,
}

/// How a snapshot is laid down.
#[derive(Debug, Clone, Copy, PartialEq, Eq, Structural)]
pub enum ConfigOptsOutputFormat {
    /// A plain copy of the source tree.
    Directory,
    /// One compressed archive.
    Tarball,
}

/// How much of a run is logged.
#[derive(Debug, Clone, Copy, PartialEq, Eq, Structural)]
pub enum LogLevel {
    Off,
    Error,
    Warn,
    Info,
    Debug,
    Trace,
}

/// The period of a retention tier.
#[derive(Debug, Clone, Copy, PartialEq, Eq, Structural, Hash)]
pub enum ConfigRetentionKind {
    Hours,
    Days,
    Weeks,
    Months,
    Years,
}

impl ConfigRetentionKind {
    /// The lowercase plural name of the period. It names the tier in the
    /// configuration and is the name of the tier's directory.
    pub open spec fn name(self) -> Seq<char> {
        match self {
            ConfigRetentionKind::Hours => "hours"@,
            ConfigRetentionKind::Days => "days"@,
            ConfigRetentionKind::Weeks => "weeks"@,
            ConfigRetentionKind::Months => "months"@,
            ConfigRetentionKind::Years => "years"@,
        }
    }

    /// The period that `name` names, if it names one.
    pub open spec fn named(name: Seq<char>) -> Option<ConfigRetentionKind> {
        if name == "hours"@ {
            Some(ConfigRetentionKind::Hours)
        } else if name == "days"@ {
            Some(ConfigRetentionKind::Days)
        } else if name == "weeks"@ {
            Some(ConfigRetentionKind::Weeks)
        } else if name == "months"@ {
            Some(ConfigRetentionKind::Months)
        } else if name == "years"@ {
            Some(ConfigRetentionKind::Years)
        } else {
            None
        }
    }

    /// The age, in seconds, at which the newest snapshot of a tier of this
    /// period calls for the next one. A month is thirty days and a year 365.
    pub open spec fn threshold_seconds(self) -> nat {
        match self {
            ConfigRetentionKind::Hours => 3_600,
            ConfigRetentionKind::Days => 86_400,
            ConfigRetentionKind::Weeks => 604_800,
            ConfigRetentionKind::Months => 2_592_000,
            ConfigRetentionKind::Years => 31_536_000,
        }
    }

    /// The threshold of the period in seconds.
    pub fn age_threshold(&self) -> (seconds: u64)
        ensures
            seconds == self.threshold_seconds(),
    {
        match self {
            ConfigRetentionKind::Hours => 60 * 60,
            ConfigRetentionKind::Days => 24 * 60 * 60,
            ConfigRetentionKind::Weeks => 7 * 24 * 60 * 60,
            ConfigRetentionKind::Months => 30 * 24 * 60 * 60,
            ConfigRetentionKind::Years => 365 * 24 * 60 * 60,
        }
    }

    /// The name of the period.
    pub fn as_str(&self) -> (name: &'static str)
        ensures
            name@ == self.name(),
    {
        match self {
            ConfigRetentionKind::Hours => "hours",
            ConfigRetentionKind::Days => "days",
            ConfigRetentionKind::Weeks => "weeks",
            ConfigRetentionKind::Months => "months",
            ConfigRetentionKind::Years => "years",
        }
    }

    /// The name of the period, as an owned string.
    pub fn to_string(&self) -> (name: String)
        ensures
            name@ == self.name(),
    {
        String::from_str(self.as_str())
    }

    /// The period that `name` names. Any other text names none.
    pub fn from_name(name: &str) -> (kind: Option<ConfigRetentionKind>)
        ensures
            kind == Self::named(name@),
    {
        if equal(name, "hours") {
            Some(ConfigRetentionKind::Hours)
        } else if equal(name, "days") {
            Some(ConfigRetentionKind::Days)
        } else if equal(name, "weeks") {
            Some(ConfigRetentionKind::Weeks)
        } else if equal(name, "months") {
            Some(ConfigRetentionKind::Months)
        } else if equal(name, "years") {
            Some(ConfigRetentionKind::Years)
        } else {
            None
        }
    }

    /// The name of a period is one component of a path, so that it can name
    /// the directory of the tier.
    pub proof fn lemma_name_is_component(kind: ConfigRetentionKind)
        ensures
            is_component_spec(kind.name()),
    {
        reveal_strlit("hours");
        reveal_strlit("days");
        reveal_strlit("weeks");
        reveal_strlit("months");
        reveal_strlit("years");
        assert("hours"@ =~= seq!['h', 'o', 'u', 'r', 's']);
        assert("days"@ =~= seq!['d', 'a', 'y', 's']);
        assert("weeks"@ =~= seq!['w', 'e', 'e', 'k', 's']);
        assert("months"@ =~= seq!['m', 'o', 'n', 't', 'h', 's']);
        assert("years"@ =~= seq!['y', 'e', 'a', 'r', 's']);
    }

    /// Names and periods stand in a bijection: each period is found again
    /// by its name, and a text that names a period is that period's name.
    pub proof fn lemma_name_bijection(kind: ConfigRetentionKind, name: Seq<char>)
        ensures
            Self::named(kind.name()) == Some(kind),
            Self::named(name) == Some(kind) <==> name == kind.name(),
    {
        reveal_strlit("hours");
        reveal_strlit("days");
        reveal_strlit("weeks");
        reveal_strlit("months");
        reveal_strlit("years");
        assert("hours"@.len() == 5 && "days"@.len() == 4 && "weeks"@.len() == 5);
        assert("months"@.len() == 6 && "years"@.len() == 5);
        assert("hours"@[0] == 'h' && "weeks"@[0] == 'w' && "years"@[0] == 'y');
    }
}

/// The text that `str::to_lowercase` makes of `text`.
pub uninterp spec fn lowercase(text: Seq<char>) -> Seq<char>;

/// Calls `str::to_lowercase`. Trusted: the result is the lowercase form
/// that the standard library defines for the text, which depends on the
/// text alone.
#[verifier::external_body]
fn to_lowercase(text: &str) -> (lower: String)
    ensures
        lower@ == lowercase(text@),
{
    text.to_lowercase()
}

impl LogLevel {
    /// The level that the lowercase text `lower` names. A text that names
    /// none stands for the default level.
    pub open spec fn named(lower: Seq<char>) -> LogLevel {
        if lower == "off"@ {
            LogLevel::Off
        } else if lower == "error"@ {
            LogLevel::Error
        } else if lower == "warn"@ {
            LogLevel::Warn
        } else if lower == "info"@ {
            LogLevel::Info
        } else if lower == "debug"@ {
            LogLevel::Debug
        } else if lower == "trace"@ {
            LogLevel::Trace
        } else {
            LogLevel::Warn
        }
    }

    /// The level that the lowercase text `lower` names.
    pub fn from_lowercase(lower: &str) -> (level: LogLevel)
        ensures
            level == Self::named(lower@),
    {
        if equal(lower, "off") {
            LogLevel::Off
        } else if equal(lower, "error") {
            LogLevel::Error
        } else if equal(lower, "warn") {
            LogLevel::Warn
        } else if equal(lower, "info") {
            LogLevel::Info
        } else if equal(lower, "debug") {
            LogLevel::Debug
        } else if equal(lower, "trace") {
            LogLevel::Trace
        } else {
            default_opts_log_level()
        }
    }
}

/// The level that `value` names, whatever its case; the default level
/// where it names none.
pub fn deserialize_opts_log_level(value: &str) -> (level: LogLevel)
    ensures
        level == LogLevel::named(lowercase(value@)),
{
    let lower = to_lowercase(value);
    LogLevel::from_lowercase(lower.as_str())
}

/// The options of a run.
#[derive(Debug)]
pub struct ConfigOpts {
    pub output_format: ConfigOptsOutputFormat,
    pub log_level: LogLevel,
    /// Log what would change on disk, and change nothing.
    pub dry_run: bool,
    /// Only entries that one of these matches go into a snapshot; all do
    /// where there is none.
    pub include_patterns: Vec<GlobPattern>,
    /// No entry that one of these matches goes into a snapshot.
    pub exclude_patterns: Vec<GlobPattern>,
}

/// The options of a run that sets none.
pub fn default_opts() -> (options: ConfigOpts)
    ensures
        options.output_format == ConfigOptsOutputFormat::Directory,
        options.log_level == LogLevel::Warn,
        !options.dry_run,
        options.include_patterns@.len() == 0,
        options.exclude_patterns@.len() == 0,
{
    ConfigOpts {
        output_format: default_opts_output_format(),
        log_level: default_opts_log_level(),
        dry_run: false,
        include_patterns: Vec::new(),
        exclude_patterns: Vec::new(),
    }
}

/// The output format of a run that sets none.
pub fn default_opts_output_format() -> (format: ConfigOptsOutputFormat)
    ensures
        format == ConfigOptsOutputFormat::Directory,
{
    ConfigOptsOutputFormat::Directory
}

/// The log level of a run that sets none.
pub fn default_opts_log_level() -> (level: LogLevel)
    ensures
        level == LogLevel::Warn,
{
    LogLevel::Warn
}

/// How many snapshots each tier may keep. A tier without a count is not
/// configured.
#[derive(Debug, Clone, Copy, PartialEq, Eq, Structural)]
pub struct ConfigRetention {
    pub hours: Option<usize>,
    pub days: Option<usize>,
    pub weeks: Option<usize>,
    pub months: Option<usize>,
    pub years: Option<usize>,
}

impl View for ConfigRetention {
    type V = Map<ConfigRetentionKind, nat>;

    open spec fn view(&self) -> Map<ConfigRetentionKind, nat> {
        Map::new(
            |kind: ConfigRetentionKind| self.max_count(kind) is Some,
            |kind: ConfigRetentionKind| self.max_count(kind).unwrap() as nat,
        )
    }
}

impl ConfigRetention {
    /// The count configured for `kind`.
    pub open spec fn max_count(self, kind: ConfigRetentionKind) -> Option<usize> {
        match kind {
            ConfigRetentionKind::Hours => self.hours,
            ConfigRetentionKind::Days => self.days,
            ConfigRetentionKind::Weeks => self.weeks,
            ConfigRetentionKind::Months => self.months,
            ConfigRetentionKind::Years => self.years,
        }
    }

    /// The retention with no tier configured.
    pub open spec fn unconfigured() -> ConfigRetention {
        ConfigRetention { hours: None, days: None, weeks: None, months: None, years: None }
    }

    /// This retention with the tier of `kind` set to keep `max_count`.
    pub open spec fn with_count(
        self,
        kind: ConfigRetentionKind,
        max_count: usize,
    ) -> ConfigRetention {
        match kind {
            ConfigRetentionKind::Hours => ConfigRetention { hours: Some(max_count), ..self },
            ConfigRetentionKind::Days => ConfigRetention { days: Some(max_count), ..self },
            ConfigRetentionKind::Weeks => ConfigRetention { weeks: Some(max_count), ..self },
            ConfigRetentionKind::Months => ConfigRetention { months: Some(max_count), ..self },
            ConfigRetentionKind::Years => ConfigRetention { years: Some(max_count), ..self },
        }
    }

    /// A retention with no tier configured.
    pub fn new() -> (retention: ConfigRetention)
        ensures
            retention == ConfigRetention::unconfigured(),
            retention@ == Map::<ConfigRetentionKind, nat>::empty(),
    {
        let retention = ConfigRetention {
            hours: None,
            days: None,
            weeks: None,
            months: None,
            years: None,
        };
        assert(retention@ =~= Map::<ConfigRetentionKind, nat>::empty());
        retention
    }

    /// Configures the tier of `kind` to keep `max_count` snapshots. A count
    /// set before for the same tier is replaced.
    pub fn insert(&mut self, kind: ConfigRetentionKind, max_count: usize)
        ensures
            *final(self) == old(self).with_count(kind, max_count),
            final(self)@ == old(self)@.insert(kind, max_count as nat),
    {
        match kind {
            ConfigRetentionKind::Hours => {
                self.hours = Some(max_count);
            },
            ConfigRetentionKind::Days => {
                self.days = Some(max_count);
            },
            ConfigRetentionKind::Weeks => {
                self.weeks = Some(max_count);
            },
            ConfigRetentionKind::Months => {
                self.months = Some(max_count);
            },
            ConfigRetentionKind::Years => {
                self.years = Some(max_count);
            },
        }
        assert(self@ =~= old(self)@.insert(kind, max_count as nat));
    }

    /// The count configured for `kind`, if the tier is configured.
    pub fn get(&self, kind: ConfigRetentionKind) -> (max_count: Option<usize>)
        ensures
            max_count == self.max_count(kind),
            max_count is Some <==> self@.contains_key(kind),
            max_count matches Some(count) ==> self@[kind] == count,
    {
        match kind {
            ConfigRetentionKind::Hours => self.hours,
            ConfigRetentionKind::Days => self.days,
            ConfigRetentionKind::Weeks => self.weeks,
            ConfigRetentionKind::Months => self.months,
            ConfigRetentionKind::Years => self.years,
        }
    }

    /// Whether no tier is configured.
    pub fn is_empty(&self) -> (empty: bool)
        ensures
            empty == (self@ == Map::<ConfigRetentionKind, nat>::empty()),
    {
        let empty = self.hours.is_none() && self.days.is_none() && self.weeks.is_none()
            && self.months.is_none() && self.years.is_none();
        proof {
            if empty {
                assert(self@ =~= Map::<ConfigRetentionKind, nat>::empty());
            } else {
                let kind = if self.hours is Some {
                    ConfigRetentionKind::Hours
                } else if self.days is Some {
                    ConfigRetentionKind::Days
                } else if self.weeks is Some {
                    ConfigRetentionKind::Weeks
                } else if self.months is Some {
                    ConfigRetentionKind::Months
                } else {
                    ConfigRetentionKind::Years
                };
                assert(self@.contains_key(kind));
            }
        }
        empty
    }
}

/// The configuration of a run.
#[derive(Debug)]
pub struct Config {
    /// The file or directory of which snapshots are taken.
    pub source: ConfigPath,
    /// The directory under which each tier has its own.
    pub target: ConfigPath,
    pub retention: ConfigRetention,
    pub options: ConfigOpts,
}

/// Why a configuration is refused.
#[derive(Debug, Clone, Copy, PartialEq, Eq, Structural)]
pub enum ConfigError {
    /// Nothing stands at the source path.
    SourceMissing,
    /// Something other than a directory stands at the target path.
    TargetNotDirectory,
    /// No tier is configured.
    NoRetention,
}

impl ConfigError {
    /// The words that tell a user of the error.
    pub open spec fn message_spec(self) -> Seq<char> {
        match self {
            ConfigError::SourceMissing => "source path does not exist"@,
            ConfigError::TargetNotDirectory => "target path is a file, not a directory"@,
            ConfigError::NoRetention => "no retention period was specified"@,
        }
    }

    /// The words that tell a user of the error.
    pub fn message(&self) -> (words: &'static str)
        ensures
            words@ == self.message_spec(),
    {
        match self {
            ConfigError::SourceMissing => "source path does not exist",
            ConfigError::TargetNotDirectory => "target path is a file, not a directory",
            ConfigError::NoRetention => "no retention period was specified",
        }
    }
}

/// What to do about the target directory before the tiers are looked at.
#[derive(Debug, Clone, Copy, PartialEq, Eq, Structural)]
pub enum TargetSetup {
    /// The directory is there.
    Ready,
    /// Nothing is there: create the directory and its parents.
    Create,
}

/// The variable of the environment that may name the configuration file.
pub const CONFIG_FILE_VARIABLE: &'static str = "PIROUETTE_CONFIG_FILE";

/// The name of the configuration file in its default directory.
pub const CONFIG_FILE_NAME: &'static str = "pirouette.toml";

/// The default directory of the configuration file inside a container.
pub const CONTAINER_CONFIG_DIRECTORY: &'static str = "/config";

/// The path that the environment names for the configuration file:
/// `env_value` where it is set and not empty. `None` says that the default
/// path applies.
pub fn get_config_file_path(env_value: Option<&str>) -> (path: Option<String>)
    ensures
        match env_value {
            Some(value) if value@.len() > 0 => path matches Some(p) && p@ == value@,
            _ => path is None,
        },
{
    match env_value {
        Some(value) => {
            if value.is_empty() {
                None
            } else {
                Some(value.to_owned())
            }
        },
        None => None,
    }
}

/// The default path of the configuration file: the file's name in
/// `/config` inside a container, and in the current directory elsewhere.
pub fn get_config_file_path_default(in_container: bool, current_directory: &str) -> (path: String)
    ensures
        path@ == join_spec(
            if in_container {
                CONTAINER_CONFIG_DIRECTORY@
            } else {
                current_directory@
            },
            CONFIG_FILE_NAME@,
        ),
{
    let default_directory = if in_container {
        CONTAINER_CONFIG_DIRECTORY
    } else {
        current_directory
    };
    join(default_directory, CONFIG_FILE_NAME)
}

/// A source is valid where anything stands at its path, a file or a
/// directory or something else.
pub fn validate_config_source(source: PathState) -> (checked: Result<(), ConfigError>)
    ensures
        checked == if source == PathState::Missing {
            Err::<(), ConfigError>(ConfigError::SourceMissing)
        } else {
            Ok(())
        },
{
    match source {
        PathState::Missing => Err(ConfigError::SourceMissing),
        _ => Ok(()),
    }
}

/// A target is valid where a directory stands at its path, or nothing, in
/// which case the directory is to be created.
pub fn validate_config_target(target: PathState) -> (checked: Result<TargetSetup, ConfigError>)
    ensures
        checked == match target {
            PathState::Directory => Ok::<TargetSetup, ConfigError>(TargetSetup::Ready),
            PathState::Missing => Ok(TargetSetup::Create),
            _ => Err(ConfigError::TargetNotDirectory),
        },
{
    match target {
        PathState::Directory => Ok(TargetSetup::Ready),
        PathState::Missing => Ok(TargetSetup::Create),
        _ => Err(ConfigError::TargetNotDirectory),
    }
}

/// A retention is valid where at least one tier is configured.
pub fn validate_config_retention(retention: &ConfigRetention) -> (checked: Result<(), ConfigError>)
    ensures
        checked == if retention@ == Map::<ConfigRetentionKind, nat>::empty() {
            Err::<(), ConfigError>(ConfigError::NoRetention)
        } else {
            Ok(())
        },
{
    if retention.is_empty() {
        Err(ConfigError::NoRetention)
    } else {
        Ok(())
    }
}

} // verus!
