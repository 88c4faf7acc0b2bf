use torrent_vlc::torrent::engine::{
    layout_from_info, peer_counts, peer_status, torrent_name, FileDetails, PeerCounts, PeerReport,
    TorrentInfo,
};
use torrent_vlc::torrent::layout::TorrentFile;

#[test]
fn peers_are_counted_and_shown() {
    let counts = peer_counts(Some(PeerReport { live: 3, seen: 14, connecting: 5 }));
    assert_eq!(counts, PeerCounts { connected: 3, discovered: 14, connecting: 5 });
    assert_eq!(peer_counts(None), PeerCounts::default());
    assert_eq!(peer_status(counts), "Peers: 14 discovered, 3 connected");
}

#[test]
fn files_are_numbered_in_order() {
    let info = TorrentInfo {
        piece_length: 1024,
        total_length: 15,
        files: vec![
            FileDetails { path: "a".to_owned(), length: 5, offset: 0, padding: true },
            FileDetails { path: "b".to_owned(), length: 10, offset: 5, padding: false },
        ],
    };
    let layout = layout_from_info(&info);
    assert_eq!((layout.piece_length, layout.total_length), (1024, 15));
    assert!(layout.files[0].padding);
    assert_eq!(
        layout.file(1).unwrap(),
        &TorrentFile {
            file_id: 1,
            path: "b".to_owned(),
            length: 10,
            torrent_offset: 5,
            padding: false
        }
    );
}

#[test]
fn nameless_torrents_have_a_name() {
    assert_eq!(torrent_name(Some("x".to_owned())), "x");
    assert_eq!(torrent_name(None), "torrent");
}
