use torrent_vlc::torrent::layout::{GlobalRange, LayoutError, TorrentFile, TorrentLayout};

fn layout() -> TorrentLayout {
    TorrentLayout {
        piece_length: 16,
        total_length: 64,
        files: vec![
            TorrentFile {
                file_id: 0,
                path: "one.mkv".into(),
                length: 10,
                torrent_offset: 0,
                padding: false,
            },
            TorrentFile {
                file_id: 1,
                path: "two.mkv".into(),
                length: 30,
                torrent_offset: 10,
                padding: false,
            },
            TorrentFile {
                file_id: 2,
                path: "three.mkv".into(),
                length: 24,
                torrent_offset: 40,
                padding: false,
            },
        ],
    }
}

#[test]
fn maps_file_beginning_mid_piece() {
    let result = layout().file_piece_range(1, 0, 30).unwrap();
    assert_eq!(result, Some((0, 2)));
}

#[test]
fn maps_one_piece_and_final_partial_piece() {
    let value = layout();
    assert_eq!(value.file_piece_range(2, 0, 8).unwrap(), Some((2, 2)));
    assert_eq!(value.piece_len(3).unwrap(), 16);
}

#[test]
fn files_are_found_by_their_id() {
    let value = layout();
    assert_eq!(value.file(1).unwrap().path, "two.mkv");
    assert_eq!(value.file(3), Err(LayoutError::UnknownFile { file_id: 3 }));
    let copy = value.clone();
    assert_eq!(copy, value);
}

#[test]
fn empty_ranges_have_no_place() {
    let value = layout();
    assert_eq!(value.global_range(1, 30, 0), Ok(None));
    assert_eq!(value.file_piece_range(1, 7, 0), Ok(None));
    assert_eq!(value.piece_range(GlobalRange { start: 9, end_exclusive: 9 }), Ok(None));
    assert_eq!(
        value.global_range(1, 2, 3),
        Ok(Some(GlobalRange { start: 12, end_exclusive: 15 }))
    );
}

#[test]
fn every_layout_error_is_given() {
    let value = layout();
    assert_eq!(value.global_range(1, u64::MAX, 1), Err(LayoutError::FileRangeOverflow));
    assert_eq!(
        value.global_range(1, 0, 31),
        Err(LayoutError::BeyondFile { start: 0, end: 31, length: 30 })
    );
    assert_eq!(
        value.piece_range(GlobalRange { start: 0, end_exclusive: 65 }),
        Err(LayoutError::BeyondTorrent)
    );
    let mut other = layout();
    other.files[1].torrent_offset = u64::MAX - 3;
    assert_eq!(other.global_range(1, 0, 30), Err(LayoutError::TorrentRangeOverflow));
    other.piece_length = 0;
    assert_eq!(other.file_piece_range(0, 0, 1), Err(LayoutError::ZeroPieceLength));
    let huge = TorrentLayout { piece_length: 1, total_length: u64::MAX, files: Vec::new() };
    assert_eq!(
        huge.piece_range(GlobalRange { start: 0, end_exclusive: 1 << 33 }),
        Err(LayoutError::PieceIndexTooLarge)
    );
    let long = TorrentLayout { piece_length: u64::MAX, total_length: u64::MAX, files: Vec::new() };
    assert_eq!(long.piece_len(2), Err(LayoutError::PieceOffsetOverflow));
    assert_eq!(value.piece_len(4), Err(LayoutError::PieceOutside { piece: 4 }));
}

#[test]
fn the_last_piece_takes_what_is_left() {
    let mut value = layout();
    value.total_length = 50;
    assert_eq!(value.piece_len(0), Ok(16));
    assert_eq!(value.piece_len(3), Ok(2));
    let total: u64 = (0..4).map(|piece| value.piece_len(piece).unwrap()).sum();
    assert_eq!(total, 50);
}
