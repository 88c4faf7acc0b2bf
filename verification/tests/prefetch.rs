use torrent_vlc::stream::prefetch::{prefetch, StartupBuffer, StartupError};
use torrent_vlc::stream::transfer::{Progress, ReadEvent};
use torrent_vlc::torrent::layout::{LayoutError, TorrentFile, TorrentLayout};

fn file(length: u64) -> TorrentFile {
    TorrentFile {
        file_id: 0,
        path: "a.mkv".to_owned(),
        length,
        torrent_offset: 5,
        padding: false,
    }
}

fn layout(length: u64) -> TorrentLayout {
    TorrentLayout { piece_length: 1024, total_length: 5 + length, files: vec![file(length)] }
}

#[test]
fn the_startup_buffer_is_no_longer_than_the_file() {
    assert_eq!(
        prefetch(&file(8192), &layout(8192), 2_500),
        Ok(StartupBuffer { target: 2_500, pieces: Some((0, 2)) })
    );
    assert_eq!(
        prefetch(&file(100), &layout(100), 2_500),
        Ok(StartupBuffer { target: 100, pieces: Some((0, 0)) })
    );
    assert_eq!(
        prefetch(&file(100), &layout(100), 0),
        Ok(StartupBuffer { target: 0, pieces: None })
    );
    let mut other = file(100);
    other.file_id = 7;
    assert_eq!(
        prefetch(&other, &layout(100), 10),
        Err(LayoutError::UnknownFile { file_id: 7 })
    );
}

#[test]
fn the_startup_buffer_is_ready_when_it_is_full() {
    let buffer = prefetch(&file(8192), &layout(8192), 2_500).unwrap();
    let mut transfer = buffer.start().unwrap();
    let progress = transfer.advance(ReadEvent::Data(2_000));
    assert_eq!(buffer.result(progress), None);
    assert_eq!(transfer.wanted(), 500);
    let progress = transfer.advance(ReadEvent::Data(500));
    assert_eq!(buffer.result(progress), Some(Ok(2_500)));
    let empty = prefetch(&file(100), &layout(100), 0).unwrap();
    assert_eq!(empty.start(), None);
}

#[test]
fn the_startup_buffer_fails_for_a_reason() {
    let buffer = StartupBuffer { target: 10, pieces: Some((0, 0)) };
    let cases = [
        (
            Progress::Stalled,
            StartupError::Stalled,
            "startup buffer stalled while waiting for torrent pieces",
        ),
        (Progress::Failed, StartupError::ReadFailed, "startup buffer read failed"),
        (
            Progress::Ended,
            StartupError::Ended,
            "startup stream ended before the requested buffer was ready",
        ),
    ];
    for (progress, error, message) in cases {
        assert_eq!(buffer.result(progress), Some(Err(error)));
        assert_eq!(error.message(), message);
    }
    assert_eq!(buffer.result(Progress::Cancelled), None);
}
