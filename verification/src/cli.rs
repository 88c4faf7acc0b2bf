//! The command line, and the configuration that is made of it.

use crate::paths::{file_name, file_name_of};
use crate::size::{
    byte_size, duration, parse_byte_size, parse_duration, QuantityError, QuantityFault, TimeSpan,
};
use crate::text::{chars_of, has_prefix, has_suffix, lowercase, lowercased, same_text};
use vstd::prelude::*;

verus! {

/// The data that is read before VLC starts, unless the command line says otherwise.
pub const DEFAULT_STARTUP_BUFFER: &'static str = "16MiB";

/// The longest wait for the metadata of a magnet link, unless the command line says otherwise.
pub const DEFAULT_METADATA_TIMEOUT: &'static str = "120s";

/// The longest wait for a missing piece, unless the command line says otherwise.
pub const DEFAULT_STALL_TIMEOUT: &'static str = "120s";

/// The parts of an address that tell whether it is a magnet link for a torrent.
#[derive(Debug, PartialEq, Eq)]
pub struct UrlParts {
    pub scheme: String,
    pub query_keys: Vec<String>,
}

/// The parts of an address, as text.
#[verifier::ext_equal]
pub struct UrlPartsView {
    pub scheme: Seq<char>,
    pub query_keys: Seq<Seq<char>>,
}

impl View for UrlParts {
    type V = UrlPartsView;

    open spec fn view(&self) -> UrlPartsView {
        UrlPartsView {
            scheme: self.scheme@,
            query_keys: self.query_keys@.map_values(|key: String| key@),
        }
    }
}

/// The parts of an address, or why it is not one.
pub uninterp spec fn parsed_url(input: Seq<char>) -> Result<UrlPartsView, Seq<char>>;

/// Calls `url::Url::parse`, and takes the scheme, and the keys of the pairs in the query, out of
/// the address, or the text of the error. The claim is that the input determines them.
#[verifier::external_body]
fn parse_url(input: &str) -> (res: Result<UrlParts, String>)
    ensures
        match res {
            Ok(parts) => parsed_url(input@) == Ok::<UrlPartsView, Seq<char>>(parts@),
            Err(reason) => parsed_url(input@) == Err::<UrlPartsView, Seq<char>>(reason@),
        },
{
    match url::Url::parse(input) {
        Ok(url) => Ok(
            UrlParts {
                scheme: url.scheme().to_owned(),
                query_keys: url.query_pairs().map(|(key, _)| key.into_owned()).collect(),
            },
        ),
        Err(error) => Err(error.to_string()),
    }
}

/// What was given on the command line.
#[derive(Debug)]
pub struct Cli<P> {
    /// A magnet link or a local torrent file.
    pub source: String,
    /// The number or the path of the file to play.
    pub file: Option<String>,
    /// The data to read before VLC starts.
    pub startup_buffer: String,
    /// The limit for downloaded pieces.
    pub cache_limit: Option<String>,
    /// The executable of VLC.
    pub vlc_path: Option<P>,
    /// Whether the data is preserved.
    pub keep: bool,
    /// The directory for preserved data.
    pub output: Option<P>,
    /// Whether diagnostics are shown.
    pub verbose: bool,
    /// Whether the address of the stream is printed instead of starting VLC.
    pub no_launch: bool,
    /// The longest wait for the metadata of a magnet link.
    pub metadata_timeout: String,
    /// The longest wait for a missing piece.
    pub stall_timeout: String,
}

/// Where the torrent comes from.
#[derive(Debug, PartialEq, Eq)]
pub enum Source {
    Magnet(String),
    TorrentFile(String),
}

/// What the program is to do.
#[derive(Debug)]
pub struct Config<P> {
    pub source: Source,
    pub file_selector: Option<String>,
    pub startup_buffer: u64,
    pub cache_limit: Option<u64>,
    pub vlc_path: Option<P>,
    pub keep: bool,
    pub output: Option<P>,
    pub verbose: bool,
    pub no_launch: bool,
    pub metadata_timeout: TimeSpan,
    pub stall_timeout: TimeSpan,
}

/// What the file system tells about the command line.
#[derive(Debug)]
pub struct Surroundings<P> {
    /// Whether the source is the path of a regular file.
    pub source_is_file: bool,
    /// Whether the directory for preserved data is the empty path.
    pub output_is_empty: bool,
    /// The path that stands for the current directory.
    pub current_directory: P,
}

/// Why a command line is refused.
#[derive(Debug, PartialEq, Eq)]
pub enum ConfigError {
    /// The magnet link is not an address.
    InvalidMagnet(String),
    /// The magnet link does not name a torrent.
    MissingTopic,
    /// The source is not a regular file.
    NotAFile(String),
    /// The source has another extension than that of a torrent.
    NotATorrent(String),
    /// A directory for preserved data is given, but nothing is to be preserved.
    OutputWithoutKeep,
    StartupBuffer(QuantityError),
    CacheLimit(QuantityError),
    MetadataTimeout(QuantityError),
    StallTimeout(QuantityError),
}

/// Why a command line is refused, with text for strings.
pub enum ConfigFault {
    InvalidMagnet(Seq<char>),
    MissingTopic,
    NotAFile(Seq<char>),
    NotATorrent(Seq<char>),
    OutputWithoutKeep,
    StartupBuffer(QuantityFault),
    CacheLimit(QuantityFault),
    MetadataTimeout(QuantityFault),
    StallTimeout(QuantityFault),
}

impl View for ConfigError {
    type V = ConfigFault;

    open spec fn view(&self) -> ConfigFault {
        match *self {
            ConfigError::InvalidMagnet(reason) => ConfigFault::InvalidMagnet(reason@),
            ConfigError::MissingTopic => ConfigFault::MissingTopic,
            ConfigError::NotAFile(path) => ConfigFault::NotAFile(path@),
            ConfigError::NotATorrent(path) => ConfigFault::NotATorrent(path@),
            ConfigError::OutputWithoutKeep => ConfigFault::OutputWithoutKeep,
            ConfigError::StartupBuffer(error) => ConfigFault::StartupBuffer(error@),
            ConfigError::CacheLimit(error) => ConfigFault::CacheLimit(error@),
            ConfigError::MetadataTimeout(error) => ConfigFault::MetadataTimeout(error@),
            ConfigError::StallTimeout(error) => ConfigFault::StallTimeout(error@),
        }
    }
}

/// Whether a source is meant to be a magnet link.
pub open spec fn is_magnet(source: Seq<char>) -> bool {
    "magnet:"@.is_prefix_of(source)
}

/// Whether an address is a magnet link for a torrent: one with an exact topic.
pub open spec fn names_torrent(parts: UrlPartsView) -> bool {
    parts.scheme == "magnet"@ && parts.query_keys.contains("xt"@)
}

/// Whether the name of a file ends like that of a torrent file, in whatever ASCII case.
pub open spec fn is_torrent_file(path: Seq<char>) -> bool {
    match file_name(path) {
        Some(name) => ".torrent"@.is_suffix_of(lowercase(name)),
        None => false,
    }
}

/// What is wrong with a source, given what it is as an address.
pub open spec fn source_fault(
    source: Seq<char>,
    parsed: Result<UrlPartsView, Seq<char>>,
    is_file: bool,
) -> Option<ConfigFault> {
    if is_magnet(source) {
        match parsed {
            Err(reason) => Some(ConfigFault::InvalidMagnet(reason)),
            Ok(parts) => if names_torrent(parts) {
                None
            } else {
                Some(ConfigFault::MissingTopic)
            },
        }
    } else if !is_file {
        Some(ConfigFault::NotAFile(source))
    } else if !is_torrent_file(source) {
        Some(ConfigFault::NotATorrent(source))
    } else {
        None
    }
}

impl<P> Cli<P> {
    /// The torrent that is meant by the command line.
    pub open spec fn meant_source(self) -> Source {
        if is_magnet(self.source@) {
            Source::Magnet(self.source)
        } else {
            Source::TorrentFile(self.source)
        }
    }

    /// The limit for downloaded pieces.
    pub open spec fn meant_limit(self) -> Result<Option<u64>, QuantityFault> {
        match self.cache_limit {
            None => Ok(None),
            Some(limit) => match byte_size(limit@) {
                Ok(bytes) => Ok(Some(bytes)),
                Err(fault) => Err(fault),
            },
        }
    }

    /// The directory for preserved data.
    pub open spec fn meant_output(self, surroundings: Surroundings<P>) -> Option<P> {
        match self.output {
            None => None,
            Some(path) => Some(
                if surroundings.output_is_empty {
                    surroundings.current_directory
                } else {
                    path
                },
            ),
        }
    }

    /// What is wrong with the command line apart from the longest waits.
    pub open spec fn early_fault(
        self,
        parsed: Result<UrlPartsView, Seq<char>>,
        surroundings: Surroundings<P>,
    ) -> Option<ConfigFault> {
        match source_fault(self.source@, parsed, surroundings.source_is_file) {
            Some(fault) => Some(fault),
            None => if self.output is Some && !self.keep {
                Some(ConfigFault::OutputWithoutKeep)
            } else if byte_size(self.startup_buffer@) is Err {
                Some(ConfigFault::StartupBuffer(byte_size(self.startup_buffer@)->Err_0))
            } else if self.meant_limit() is Err {
                Some(ConfigFault::CacheLimit(self.meant_limit()->Err_0))
            } else {
                None
            },
        }
    }

    /// The configuration that is made of the command line, given what the source is as an
    /// address.
    pub open spec fn config_of(
        self,
        parsed: Result<UrlPartsView, Seq<char>>,
        surroundings: Surroundings<P>,
    ) -> Result<Config<P>, ConfigFault> {
        match self.early_fault(parsed, surroundings) {
            Some(fault) => Err(fault),
            None => match duration(self.metadata_timeout@) {
                Err(fault) => Err(ConfigFault::MetadataTimeout(fault)),
                Ok(metadata_timeout) => match duration(self.stall_timeout@) {
                    Err(fault) => Err(ConfigFault::StallTimeout(fault)),
                    Ok(stall_timeout) => Ok(
                        Config {
                            source: self.meant_source(),
                            file_selector: self.file,
                            startup_buffer: byte_size(self.startup_buffer@)->Ok_0,
                            cache_limit: self.meant_limit()->Ok_0,
                            vlc_path: self.vlc_path,
                            keep: self.keep,
                            output: self.meant_output(surroundings),
                            verbose: self.verbose,
                            no_launch: self.no_launch,
                            metadata_timeout,
                            stall_timeout,
                        },
                    ),
                },
            },
        }
    }

    /// A command line with nothing but a source.
    pub fn new(source: String) -> (res: Cli<P>)
        ensures
            res.source == source,
            res.file is None && res.cache_limit is None && res.vlc_path is None,
            res.output is None && !res.keep && !res.verbose && !res.no_launch,
            res.startup_buffer@ == "16MiB"@,
            res.metadata_timeout@ == "120s"@ && res.stall_timeout@ == "120s"@,
    {
        Cli {
            source,
            file: None,
            startup_buffer: DEFAULT_STARTUP_BUFFER.to_owned(),
            cache_limit: None,
            vlc_path: None,
            keep: false,
            output: None,
            verbose: false,
            no_launch: false,
            metadata_timeout: DEFAULT_METADATA_TIMEOUT.to_owned(),
            stall_timeout: DEFAULT_STALL_TIMEOUT.to_owned(),
        }
    }
}

/// What the source is as an address, as text.
pub open spec fn parsed_view(parsed: Result<UrlParts, String>) -> Result<UrlPartsView, Seq<char>> {
    match parsed {
        Ok(parts) => Ok(parts@),
        Err(reason) => Err(reason@),
    }
}

/// Whether a text is among the keys of a query.
fn has_key(keys: &Vec<String>, key: &str) -> (res: bool)
    ensures
        res == keys@.map_values(|key: String| key@).contains(key@),
{
    let ghost texts = keys@.map_values(|key: String| key@);
    for i in 0..keys.len()
        invariant
            texts == keys@.map_values(|key: String| key@),
            !texts.take(i as int).contains(key@),
    {
        assert(texts[i as int] == keys@[i as int]@);
        if same_text(keys[i].as_str(), key) {
            assert(texts.contains(key@));
            return true;
        }
        assert(texts.take(i + 1) == texts.take(i as int).push(texts[i as int]));
    }
    assert(texts.take(texts.len() as int) == texts);
    false
}

/// Checks a source, given what it is as an address if it is meant to be a magnet link.
fn check_source(source: &String, parsed: Option<Result<UrlParts, String>>, is_file: bool) -> (res:
    Option<ConfigError>)
    requires
        is_magnet(source@) ==> parsed is Some,
    ensures
        match res {
            Some(error) => source_fault(source@, parsed_view(parsed->0), is_file) == Some(error@),
            None => source_fault(source@, parsed_view(parsed->0), is_file) is None,
        },
{
    let chars: Vec<char> = chars_of(source.as_str());
    if has_prefix(&chars, &chars_of("magnet:")) {
        match parsed {
            Some(Ok(parts)) => {
                if !same_text(parts.scheme.as_str(), "magnet") || !has_key(&parts.query_keys, "xt") {
                    return Some(ConfigError::MissingTopic);
                }
                None
            },
            Some(Err(reason)) => Some(ConfigError::InvalidMagnet(reason)),
            None => vstd::pervasive::unreached(),
        }
    } else {
        if !is_file {
            return Some(ConfigError::NotAFile(source.clone()));
        }
        let is_torrent: bool = match file_name_of(&chars) {
            Some(name) => has_suffix(&lowercased(&name), &chars_of(".torrent")),
            None => false,
        };
        if !is_torrent {
            return Some(ConfigError::NotATorrent(source.clone()));
        }
        None
    }
}

impl<P> Cli<P> {
    /// Makes the configuration of a command line, given what its source is as an address if it is
    /// meant to be a magnet link. The first option that is refused decides about the error: the
    /// source, the directory for preserved data, the startup buffer, the limit, and the waits.
    pub fn config_with(
        self,
        parsed: Option<Result<UrlParts, String>>,
        surroundings: Surroundings<P>,
    ) -> (res: Result<Config<P>, ConfigError>)
        requires
            is_magnet(self.source@) ==> parsed is Some,
        ensures
            match res {
                Ok(config) => self.config_of(parsed_view(parsed->0), surroundings) == Ok::<
                    Config<P>,
                    ConfigFault,
                >(config),
                Err(error) => self.config_of(parsed_view(parsed->0), surroundings) == Err::<
                    Config<P>,
                    ConfigFault,
                >(error@),
            },
    {
        if let Some(error) = check_source(&self.source, parsed, surroundings.source_is_file) {
            return Err(error);
        }
        if self.output.is_some() && !self.keep {
            return Err(ConfigError::OutputWithoutKeep);
        }
        let startup_buffer: u64 = match parse_byte_size(self.startup_buffer.as_str()) {
            Ok(bytes) => bytes,
            Err(error) => {
                return Err(ConfigError::StartupBuffer(error));
            },
        };
        let cache_limit: Option<u64> = match &self.cache_limit {
            Some(limit) => match parse_byte_size(limit.as_str()) {
                Ok(bytes) => Some(bytes),
                Err(error) => {
                    return Err(ConfigError::CacheLimit(error));
                },
            },
            None => None,
        };
        let metadata_timeout: TimeSpan = match parse_duration(self.metadata_timeout.as_str()) {
            Ok(span) => span,
            Err(error) => {
                return Err(ConfigError::MetadataTimeout(error));
            },
        };
        let stall_timeout: TimeSpan = match parse_duration(self.stall_timeout.as_str()) {
            Ok(span) => span,
            Err(error) => {
                return Err(ConfigError::StallTimeout(error));
            },
        };
        let source: Source = if has_prefix(&chars_of(self.source.as_str()), &chars_of("magnet:")) {
            Source::Magnet(self.source)
        } else {
            Source::TorrentFile(self.source)
        };
        let output: Option<P> = match self.output {
            Some(path) => Some(
                if surroundings.output_is_empty {
                    surroundings.current_directory
                } else {
                    path
                },
            ),
            None => None,
        };
        Ok(
            Config {
                source,
                file_selector: self.file,
                startup_buffer,
                cache_limit,
                vlc_path: self.vlc_path,
                keep: self.keep,
                output,
                verbose: self.verbose,
                no_launch: self.no_launch,
                metadata_timeout,
                stall_timeout,
            },
        )
    }

    /// Makes the configuration of a command line.
    pub fn into_config(self, surroundings: Surroundings<P>) -> (res: Result<Config<P>, ConfigError>)
        ensures
            match res {
                Ok(config) => self.config_of(parsed_url(self.source@), surroundings) == Ok::<
                    Config<P>,
                    ConfigFault,
                >(config),
                Err(error) => self.config_of(parsed_url(self.source@), surroundings) == Err::<
                    Config<P>,
                    ConfigFault,
                >(error@),
            },
    {
        let parsed: Option<Result<UrlParts, String>> = if has_prefix(
            &chars_of(self.source.as_str()),
            &chars_of("magnet:"),
        ) {
            Some(parse_url(self.source.as_str()))
        } else {
            None
        };
        self.config_with(parsed, surroundings)
    }
}

/// A directory for preserved data comes only with the wish to preserve it.
pub proof fn outputs_are_kept<P>(
    cli: Cli<P>,
    parsed: Result<UrlPartsView, Seq<char>>,
    surroundings: Surroundings<P>,
)
    ensures
        cli.config_of(parsed, surroundings) matches Ok(config) ==> config.output is Some
            ==> config.keep,
{
}

/// A configuration is for a magnet link with an exact topic, or for a regular file that is named
/// like a torrent file.
pub proof fn sources_are_usable<P>(
    cli: Cli<P>,
    parsed: Result<UrlPartsView, Seq<char>>,
    surroundings: Surroundings<P>,
)
    ensures
        cli.config_of(parsed, surroundings) matches Ok(config) ==> match config.source {
            Source::Magnet(link) => link == cli.source && (parsed matches Ok(parts)
                && names_torrent(parts)),
            Source::TorrentFile(path) => path == cli.source && surroundings.source_is_file
                && is_torrent_file(path@),
        },
{
}

/// A configuration carries every flag and option of its command line over as it is.
pub proof fn flags_are_carried_over<P>(
    cli: Cli<P>,
    parsed: Result<UrlPartsView, Seq<char>>,
    surroundings: Surroundings<P>,
)
    ensures
        cli.config_of(parsed, surroundings) matches Ok(config) ==> {
            &&& config.verbose == cli.verbose
            &&& config.no_launch == cli.no_launch
            &&& config.keep == cli.keep
            &&& config.file_selector == cli.file
            &&& config.vlc_path == cli.vlc_path
        },
{
}

/// The sizes and waits of a configuration are those of the options with the same name, and there
/// is a limit exactly if one was given.
pub proof fn quantities_are_read_from_their_options<P>(
    cli: Cli<P>,
    parsed: Result<UrlPartsView, Seq<char>>,
    surroundings: Surroundings<P>,
)
    ensures
        cli.config_of(parsed, surroundings) matches Ok(config) ==> {
            &&& byte_size(cli.startup_buffer@) == Ok::<u64, QuantityFault>(config.startup_buffer)
            &&& duration(cli.metadata_timeout@) == Ok::<TimeSpan, QuantityFault>(
                config.metadata_timeout,
            )
            &&& duration(cli.stall_timeout@) == Ok::<TimeSpan, QuantityFault>(config.stall_timeout)
            &&& config.cache_limit is Some <==> cli.cache_limit is Some
            &&& config.cache_limit matches Some(limit) ==> byte_size(cli.cache_limit->0@) == Ok::<
                u64,
                QuantityFault,
            >(limit)
        },
{
}

/// The directory for preserved data is the one that was given, or the current one if that is
/// empty; none if none was given.
pub proof fn outputs_are_where_they_were_wanted<P>(
    cli: Cli<P>,
    parsed: Result<UrlPartsView, Seq<char>>,
    surroundings: Surroundings<P>,
)
    ensures
        cli.config_of(parsed, surroundings) matches Ok(config) ==> {
            &&& cli.output is None ==> config.output is None
            &&& cli.output is Some && !surroundings.output_is_empty ==> config.output == cli.output
            &&& cli.output is Some && surroundings.output_is_empty ==> config.output == Some(
                surroundings.current_directory,
            )
        },
{
}

/// A command line is accepted exactly if its source can be used, it asks for a directory only to
/// preserve data, and its sizes and waits can be read.
pub proof fn command_lines_are_accepted_if_nothing_is_wrong<P>(
    cli: Cli<P>,
    parsed: Result<UrlPartsView, Seq<char>>,
    surroundings: Surroundings<P>,
)
    ensures
        cli.config_of(parsed, surroundings) is Ok <==> {
            let name = file_name(cli.source@);
            &&& if "magnet:"@.is_prefix_of(cli.source@) {
                parsed matches Ok(parts) && parts.scheme == "magnet"@ && parts.query_keys.contains(
                    "xt"@,
                )
            } else {
                surroundings.source_is_file && name is Some && ".torrent"@.is_suffix_of(
                    lowercase(name->0),
                )
            }
            &&& cli.output is Some ==> cli.keep
            &&& byte_size(cli.startup_buffer@) is Ok
            &&& cli.cache_limit matches Some(limit) ==> byte_size(limit@) is Ok
            &&& duration(cli.metadata_timeout@) is Ok
            &&& duration(cli.stall_timeout@) is Ok
        },
{
}

/// The error names what is wrong: the magnet link, the file, the directory, or the option whose
/// value cannot be read, with the reason.
pub proof fn errors_name_what_is_wrong<P>(
    cli: Cli<P>,
    parsed: Result<UrlPartsView, Seq<char>>,
    surroundings: Surroundings<P>,
)
    ensures
        cli.config_of(parsed, surroundings) matches Err(fault) ==> match fault {
            ConfigFault::InvalidMagnet(reason) => "magnet:"@.is_prefix_of(cli.source@) && parsed
                == Err::<UrlPartsView, Seq<char>>(reason),
            ConfigFault::MissingTopic => "magnet:"@.is_prefix_of(cli.source@) && parsed is Ok,
            ConfigFault::NotAFile(path) => path == cli.source@ && !surroundings.source_is_file,
            ConfigFault::NotATorrent(path) => path == cli.source@ && surroundings.source_is_file,
            ConfigFault::OutputWithoutKeep => cli.output is Some && !cli.keep,
            ConfigFault::StartupBuffer(fault) => byte_size(cli.startup_buffer@) == Err::<
                u64,
                QuantityFault,
            >(fault),
            ConfigFault::CacheLimit(fault) => cli.cache_limit is Some && byte_size(
                cli.cache_limit->0@,
            ) == Err::<u64, QuantityFault>(fault),
            ConfigFault::MetadataTimeout(fault) => duration(cli.metadata_timeout@) == Err::<
                TimeSpan,
                QuantityFault,
            >(fault),
            ConfigFault::StallTimeout(fault) => duration(cli.stall_timeout@) == Err::<
                TimeSpan,
                QuantityFault,
            >(fault),
        },
{
}

} // verus!
