use torrent_vlc::cli::ConfigError;
use torrent_vlc::file_select::SelectError;
use torrent_vlc::messages::QuantityKind;
use torrent_vlc::size::QuantityError;
use torrent_vlc::stream::ranges::RangeError;
use torrent_vlc::token::new_token;
use torrent_vlc::torrent::layout::LayoutError;
use torrent_vlc::torrent::quota::QuotaError;

#[test]
fn layout_errors_are_told() {
    let path = "dir/a.mkv";
    assert_eq!(
        LayoutError::BeyondFile { start: 1, end: 9, length: 8 }.message(path),
        "file range 1..9 exceeds 8 (file dir/a.mkv)"
    );
    assert_eq!(
        LayoutError::UnknownFile { file_id: 12 }.message(path),
        "torrent file id 12 is not present"
    );
    assert_eq!(
        LayoutError::PieceOutside { piece: 3 }.message(path),
        "piece index 3 is outside torrent"
    );
    let plain = [
        (LayoutError::FileRangeOverflow, "file range overflows u64"),
        (LayoutError::TorrentRangeOverflow, "torrent range overflows u64"),
        (LayoutError::BeyondTorrent, "torrent range exceeds torrent length"),
        (LayoutError::ZeroPieceLength, "torrent piece length is zero"),
        (LayoutError::PieceIndexTooLarge, "piece index is too large"),
        (LayoutError::PieceOffsetOverflow, "piece offset overflows u64"),
    ];
    for (error, message) in plain {
        assert_eq!(error.message(path), message);
    }
}

#[test]
fn quota_and_selection_errors_are_told() {
    assert_eq!(
        QuotaError::LimitExceeded { limit: 100 }.message(),
        "cache limit of 100 bytes would be exceeded by this torrent piece write"
    );
    assert_eq!(
        QuotaError::UnknownFile.message(),
        "quota storage received an invalid file id"
    );
    assert_eq!(
        SelectError::IndexOutside { index: 5, count: 2 }.message("5"),
        "file index 5 is outside 1..=2"
    );
    assert_eq!(SelectError::NotFound.message("x.mkv"), "playable file not found: x.mkv");
    assert_eq!(SelectError::NotANumber.message(""), "please select a numbered file");
    assert_eq!(
        SelectError::NoPlayableFiles.message(""),
        "torrent contains no playable media files"
    );
}

#[test]
fn range_and_option_errors_are_told() {
    assert_eq!(RangeError::StartOutside.message(), "range start is outside file");
    assert_eq!(RangeError::Multiple.message(), "multiple byte ranges are not supported");
    assert_eq!(
        ConfigError::NotAFile("a.torrent".to_owned()).message(),
        "torrent file does not exist or is not a regular file: a.torrent"
    );
    assert_eq!(
        ConfigError::NotATorrent("a.mkv".to_owned()).message(),
        "source must be a magnet URI or a .torrent file: a.mkv"
    );
    assert_eq!(
        ConfigError::StallTimeout(QuantityError::Empty).message(),
        "invalid --stall-timeout"
    );
    assert_eq!(ConfigError::OutputWithoutKeep.message(), "--output requires --keep");
}

#[test]
fn quantity_errors_are_told() {
    let told = |error: QuantityError, kind: QuantityKind| error.message(kind, "\"7x\"", "\"x\"");
    let cases = [
        (QuantityError::Empty, "size cannot be empty"),
        (QuantityError::InvalidNumber, "invalid size number in \"7x\""),
        (QuantityError::NotFinite, "size must be a finite non-negative number: \"7x\""),
        (
            QuantityError::UnknownSuffix("x".to_owned()),
            "unknown size suffix \"x\" in \"7x\"",
        ),
        (QuantityError::TooLarge, "size is too large: \"7x\""),
    ];
    for (error, message) in cases {
        assert_eq!(told(error, QuantityKind::Size), message);
    }
    assert_eq!(
        told(QuantityError::TooLarge, QuantityKind::Duration),
        "duration is too large: \"7x\""
    );
}

#[test]
fn tokens_are_random_identifiers() {
    let mut seen: Vec<String> = Vec::new();
    for _ in 0..50 {
        let token = new_token();
        let chars: Vec<char> = token.chars().collect();
        assert_eq!(chars.len(), 32);
        assert!(chars.iter().all(|c| matches!(c, '0'..='9' | 'a'..='f')));
        assert_eq!(chars[12], '4');
        assert!(matches!(chars[16], '8' | '9' | 'a' | 'b'));
        assert!(!seen.contains(&token));
        seen.push(token);
    }
}
