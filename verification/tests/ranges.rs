use torrent_vlc::stream::ranges::{parse_range, plan_range, ByteRange, RangeError};
use torrent_vlc::torrent::layout::{GlobalRange, LayoutError, TorrentFile, TorrentLayout};

#[test]
fn parses_open_and_closed_ranges() {
    assert_eq!(
        parse_range(Some("bytes=0-"), 1_000).unwrap(),
        Some(ByteRange {
            start: 0,
            end_inclusive: 999
        })
    );
    assert_eq!(
        parse_range(Some("bytes=100-200"), 1_000).unwrap(),
        Some(ByteRange {
            start: 100,
            end_inclusive: 200
        })
    );
    assert_eq!(
        parse_range(Some("bytes=500-"), 1_000).unwrap(),
        Some(ByteRange {
            start: 500,
            end_inclusive: 999
        })
    );
}

#[test]
fn parses_suffix_and_clamps_end() {
    assert_eq!(
        parse_range(Some("bytes=-100"), 50).unwrap(),
        Some(ByteRange {
            start: 0,
            end_inclusive: 49
        })
    );
    assert_eq!(
        parse_range(Some("bytes=10-999"), 50).unwrap(),
        Some(ByteRange {
            start: 10,
            end_inclusive: 49
        })
    );
}

#[test]
fn rejects_invalid_ranges() {
    for value in [
        "items=0-",
        "bytes=",
        "bytes=10-2",
        "bytes=100-",
        "bytes=0-1,2-3",
    ] {
        assert!(parse_range(Some(value), 100).is_err(), "{value}");
    }
}

fn sample_layout() -> TorrentLayout {
    TorrentLayout {
        piece_length: 16,
        total_length: 32,
        files: vec![
            TorrentFile {
                file_id: 0,
                path: "a.mkv".into(),
                length: 5,
                torrent_offset: 0,
                padding: false,
            },
            TorrentFile {
                file_id: 1,
                path: "b.mkv".into(),
                length: 27,
                torrent_offset: 5,
                padding: false,
            },
        ],
    }
}

#[test]
fn plans_a_range_through_a_file_that_starts_mid_piece() {
    let layout = sample_layout();
    let plan = plan_range(
        &layout,
        1,
        ByteRange {
            start: 0,
            end_inclusive: 20,
        },
    )
    .unwrap();
    assert_eq!(plan.torrent_range.start, 5);
    assert_eq!((plan.first_piece, plan.last_piece), (0, 1));
}

#[test]
fn plans_hold_the_range_and_its_place() {
    let range = ByteRange { start: 3, end_inclusive: 26 };
    let plan = plan_range(&sample_layout(), 1, range).unwrap();
    assert_eq!(plan.file_id, 1);
    assert_eq!(plan.file_range, range);
    assert_eq!(plan.torrent_range, GlobalRange { start: 8, end_exclusive: 32 });
    assert_eq!((plan.first_piece, plan.last_piece), (0, 1));
    assert_eq!(
        plan_range(&sample_layout(), 1, ByteRange { start: 3, end_inclusive: 27 }),
        Err(LayoutError::BeyondFile { start: 3, end: 28, length: 27 })
    );
    assert_eq!(
        plan_range(&sample_layout(), 2, range),
        Err(LayoutError::UnknownFile { file_id: 2 })
    );
}

#[test]
fn every_fault_of_a_range_is_named() {
    assert_eq!(parse_range(None, 0), Ok(None));
    assert_eq!(parse_range(Some("bytes=0-"), 0), Err(RangeError::EmptyFile));
    assert_eq!(parse_range(Some("Bytes=0-"), 9), Err(RangeError::NotBytes));
    assert_eq!(parse_range(Some("bytes=0-1,"), 9), Err(RangeError::Multiple));
    assert_eq!(parse_range(Some("bytes=7"), 9), Err(RangeError::Malformed));
    assert_eq!(parse_range(Some("bytes=-"), 9), Err(RangeError::InvalidSuffix));
    assert_eq!(parse_range(Some("bytes=-0"), 9), Err(RangeError::ZeroSuffix));
    assert_eq!(parse_range(Some("bytes=x-"), 9), Err(RangeError::InvalidStart));
    assert_eq!(parse_range(Some("bytes=9-"), 9), Err(RangeError::StartOutside));
    assert_eq!(parse_range(Some("bytes=1-x"), 9), Err(RangeError::InvalidEnd));
    assert_eq!(parse_range(Some("bytes=4-3"), 9), Err(RangeError::EndBeforeStart));
    assert_eq!(
        parse_range(Some("bytes=18446744073709551616-"), 9),
        Err(RangeError::InvalidStart)
    );
}

#[test]
fn spaces_and_signs_are_read() {
    let range = Ok(Some(ByteRange { start: 2, end_inclusive: 5 }));
    assert_eq!(parse_range(Some("  bytes= 2 - 5 \t"), 9), range);
    assert_eq!(parse_range(Some("bytes=+2-+5"), 9), range);
    assert_eq!(
        parse_range(Some("bytes=- 4"), 9),
        Ok(Some(ByteRange { start: 5, end_inclusive: 8 }))
    );
    assert_eq!(
        parse_range(Some("bytes=2- "), 9),
        Ok(Some(ByteRange { start: 2, end_inclusive: 8 }))
    );
}

#[test]
fn ranges_are_measured() {
    let range = ByteRange { start: 5, end_inclusive: 9 };
    assert_eq!(range.len(), 5);
    assert!(!range.is_empty());
    assert!(ByteRange { start: 6, end_inclusive: 5 }.is_empty());
    assert_eq!(ByteRange { start: 1, end_inclusive: u64::MAX }.len(), u64::MAX);
}
