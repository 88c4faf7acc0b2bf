use torrent_vlc::cli::{Cli, Config, ConfigError, Source, Surroundings, UrlParts};
use torrent_vlc::size::{QuantityError, TimeSpan};

fn surroundings() -> Surroundings<String> {
    Surroundings {
        source_is_file: true,
        output_is_empty: false,
        current_directory: ".".to_owned(),
    }
}

fn fixture() -> Cli<String> {
    Cli::new("/tmp/fixture.torrent".to_owned())
}

fn refusal(cli: Cli<String>) -> ConfigError {
    cli.into_config(surroundings()).unwrap_err()
}

#[test]
fn fast_startup_buffer_is_the_default() {
    let config = fixture().into_config(surroundings()).unwrap();

    assert_eq!(config.startup_buffer, 16 * 1024 * 1024);
}

#[test]
fn startup_buffer_can_still_be_overridden() {
    let mut cli = fixture();
    cli.startup_buffer = "64MiB".to_owned();
    let config = cli.into_config(surroundings()).unwrap();

    assert_eq!(config.startup_buffer, 64 * 1024 * 1024);
}

#[test]
fn a_bare_command_line_has_the_defaults() {
    let config: Config<String> = fixture().into_config(surroundings()).unwrap();
    assert_eq!(config.source, Source::TorrentFile("/tmp/fixture.torrent".to_owned()));
    assert_eq!(config.file_selector, None);
    assert_eq!(config.cache_limit, None);
    assert_eq!(config.vlc_path, None);
    assert_eq!(config.output, None);
    assert!(!config.keep && !config.verbose && !config.no_launch);
    assert_eq!(config.metadata_timeout, TimeSpan { secs: 120, nanos: 0 });
    assert_eq!(config.stall_timeout, TimeSpan { secs: 120, nanos: 0 });
}

#[test]
fn options_are_carried_over() {
    let mut cli = fixture();
    cli.file = Some("2".to_owned());
    cli.cache_limit = Some("8G".to_owned());
    cli.vlc_path = Some("/usr/bin/vlc".to_owned());
    cli.keep = true;
    cli.output = Some("Videos".to_owned());
    cli.verbose = true;
    cli.no_launch = true;
    cli.metadata_timeout = "2m".to_owned();
    cli.stall_timeout = "250ms".to_owned();
    let config = cli.into_config(surroundings()).unwrap();
    assert_eq!(config.file_selector.as_deref(), Some("2"));
    assert_eq!(config.cache_limit, Some(8_000_000_000));
    assert_eq!(config.vlc_path.as_deref(), Some("/usr/bin/vlc"));
    assert_eq!(config.output.as_deref(), Some("Videos"));
    assert!(config.keep && config.verbose && config.no_launch);
    assert_eq!(config.metadata_timeout, TimeSpan { secs: 120, nanos: 0 });
    assert_eq!(config.stall_timeout, TimeSpan { secs: 0, nanos: 250_000_000 });
}

#[test]
fn an_empty_output_is_the_current_directory() {
    let mut cli = fixture();
    cli.keep = true;
    cli.output = Some(String::new());
    let mut around = surroundings();
    around.output_is_empty = true;
    assert_eq!(cli.into_config(around).unwrap().output.as_deref(), Some("."));
}

#[test]
fn magnet_links_need_a_topic() {
    let link = "magnet:?xt=urn:btih:0123456789abcdef0123456789abcdef01234567&dn=name";
    let cli: Cli<String> = Cli::new(link.to_owned());
    assert_eq!(
        cli.into_config(surroundings()).unwrap().source,
        Source::Magnet(link.to_owned())
    );
    for link in ["magnet:?dn=name", "magnet:", "magnet:?xt", "magnet:?x%74=a", "magnet:?XT=a"] {
        let result = Cli::new(link.to_owned()).into_config(surroundings());
        let accepted = link == "magnet:?xt" || link == "magnet:?x%74=a";
        assert_eq!(result.is_ok(), accepted, "{link}");
        if !accepted {
            assert_eq!(result.unwrap_err(), ConfigError::MissingTopic);
        }
    }
    assert!(matches!(
        refusal(Cli::new("magnet://[".to_owned())),
        ConfigError::InvalidMagnet(_)
    ));
}

#[test]
fn parsed_links_decide_about_the_source() {
    let cli = || Cli::<String>::new("magnet:anything".to_owned());
    let parts = |scheme: &str, key: &str| UrlParts {
        scheme: scheme.to_owned(),
        query_keys: vec!["dn".to_owned(), key.to_owned()],
    };
    let config = cli().config_with(Some(Ok(parts("magnet", "xt"))), surroundings());
    assert_eq!(config.unwrap().source, Source::Magnet("magnet:anything".to_owned()));
    for (scheme, key) in [("http", "xt"), ("magnet", "tx")] {
        let refused = cli().config_with(Some(Ok(parts(scheme, key))), surroundings());
        assert_eq!(refused.unwrap_err(), ConfigError::MissingTopic);
    }
    let refused = cli().config_with(Some(Err("broken".to_owned())), surroundings());
    assert_eq!(refused.unwrap_err(), ConfigError::InvalidMagnet("broken".to_owned()));
}

#[test]
fn torrent_files_must_exist_and_be_torrents() {
    let mut around = surroundings();
    around.source_is_file = false;
    assert_eq!(
        fixture().into_config(around).unwrap_err(),
        ConfigError::NotAFile("/tmp/fixture.torrent".to_owned())
    );
    for path in ["a.mkv", "fixture", "a.torrent.part", "torrent", "dir.torrent/fixture", "a."] {
        assert_eq!(
            refusal(Cli::new(path.to_owned())),
            ConfigError::NotATorrent(path.to_owned())
        );
    }
    for path in ["A.TORRENT", "dir/a.b.Torrent", ".torrent", "Magnet:?xt=1/x.torrent"] {
        assert!(Cli::new(path.to_owned()).into_config(surroundings()).is_ok(), "{path}");
    }
}

#[test]
fn the_first_bad_option_is_named() {
    let mut cli = fixture();
    cli.stall_timeout = "x".to_owned();
    cli.metadata_timeout = "1y".to_owned();
    cli.cache_limit = Some("".to_owned());
    cli.startup_buffer = "99999999TiB".to_owned();
    cli.output = Some("o".to_owned());
    let rebuild = |keep: bool, buffer: &str, limit: &str, wait: &str| {
        let mut cli = fixture();
        cli.stall_timeout = "x".to_owned();
        cli.metadata_timeout = wait.to_owned();
        cli.cache_limit = Some(limit.to_owned());
        cli.startup_buffer = buffer.to_owned();
        cli.output = Some("o".to_owned());
        cli.keep = keep;
        refusal(cli)
    };
    assert_eq!(refusal(cli), ConfigError::OutputWithoutKeep);
    assert_eq!(
        rebuild(true, "99999999TiB", "", "1y"),
        ConfigError::StartupBuffer(QuantityError::TooLarge)
    );
    assert_eq!(rebuild(true, "1", "", "1y"), ConfigError::CacheLimit(QuantityError::Empty));
    assert_eq!(
        rebuild(true, "1", "1", "1y"),
        ConfigError::MetadataTimeout(QuantityError::UnknownSuffix("y".to_owned()))
    );
    assert_eq!(
        rebuild(true, "1", "1", "1s"),
        ConfigError::StallTimeout(QuantityError::InvalidNumber)
    );
}

#[test]
fn waits_that_do_not_fit_are_refused() {
    let mut cli = fixture();
    cli.metadata_timeout = "18446744073709551616".to_owned();
    assert_eq!(refusal(cli), ConfigError::MetadataTimeout(QuantityError::TooLarge));
    let mut cli: Cli<String> = Cli::new("magnet:?dn=name".to_owned());
    cli.stall_timeout = "18446744073709551616".to_owned();
    assert_eq!(refusal(cli), ConfigError::MissingTopic);
}
