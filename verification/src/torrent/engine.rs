//! What is taken from the torrent engine: the layout of a torrent, its name, and its peers.

use crate::numbers::{decimal, decimal_text};
use crate::torrent::layout::{file_at_position, TorrentFile, TorrentLayout};
use vstd::prelude::*;

verus! {

/// How many peers of each kind there are.
#[derive(Clone, Copy, Debug, PartialEq, Eq, Structural)]
pub struct PeerCounts {
    pub connected: u32,
    pub discovered: u32,
    pub connecting: u32,
}

impl Default for PeerCounts {
    fn default() -> (res: PeerCounts)
        ensures
            res == (PeerCounts { connected: 0, discovered: 0, connecting: 0 }),
    {
        PeerCounts { connected: 0, discovered: 0, connecting: 0 }
    }
}

/// What the engine reports of the peers of a running torrent.
#[derive(Clone, Copy, Debug, PartialEq, Eq, Structural)]
pub struct PeerReport {
    pub live: u32,
    pub seen: u32,
    pub connecting: u32,
}

/// The peers of a torrent; none if it is not running.
pub fn peer_counts(report: Option<PeerReport>) -> (res: PeerCounts)
    ensures
        res == match report {
            Some(report) => PeerCounts {
                connected: report.live,
                discovered: report.seen,
                connecting: report.connecting,
            },
            None => PeerCounts { connected: 0, discovered: 0, connecting: 0 },
        },
{
    match report {
        Some(report) => PeerCounts {
            connected: report.live,
            discovered: report.seen,
            connecting: report.connecting,
        },
        None => PeerCounts::default(),
    }
}

/// The line that tells how many peers there are.
pub fn peer_status(counts: PeerCounts) -> (res: String)
    ensures
        res@ == "Peers: "@ + decimal(counts.discovered as nat) + " discovered, "@ + decimal(
            counts.connected as nat,
        ) + " connected"@,
{
    let mut res = "Peers: ".to_owned();
    res.append(decimal_text(counts.discovered as u64).as_str());
    res.append(" discovered, ");
    res.append(decimal_text(counts.connected as u64).as_str());
    res.append(" connected");
    res
}

/// What the metadata of a torrent says of a file.
#[derive(Debug)]
pub struct FileDetails {
    pub path: String,
    pub length: u64,
    pub offset: u64,
    pub padding: bool,
}

/// What the metadata of a torrent says.
#[derive(Debug)]
pub struct TorrentInfo {
    pub piece_length: u32,
    pub total_length: u64,
    pub files: Vec<FileDetails>,
}

/// The file with the given number in the layout of a torrent.
pub open spec fn laid_out(details: FileDetails, file_id: usize) -> TorrentFile {
    TorrentFile {
        file_id,
        path: details.path,
        length: details.length,
        torrent_offset: details.offset,
        padding: details.padding,
    }
}

/// Whether a layout is the one that the metadata of a torrent describes, with the files numbered
/// in the order of the metadata.
pub open spec fn describes(info: TorrentInfo, layout: TorrentLayout) -> bool {
    &&& layout.piece_length == info.piece_length
    &&& layout.total_length == info.total_length
    &&& layout.files@.len() == info.files@.len()
    &&& forall|i: int|
        0 <= i < info.files@.len() ==> #[trigger] layout.files@[i] == laid_out(
            info.files@[i],
            i as usize,
        )
}

/// The layout of a torrent, with the files numbered in the order of its metadata.
pub fn layout_from_info(info: &TorrentInfo) -> (res: TorrentLayout)
    ensures
        describes(*info, res),
{
    let mut files: Vec<TorrentFile> = Vec::new();
    for i in 0..info.files.len()
        invariant
            files@.len() == i,
            forall|j: int|
                0 <= j < i ==> #[trigger] files@[j] == laid_out(info.files@[j], j as usize),
    {
        let details: &FileDetails = &info.files[i];
        files.push(
            TorrentFile {
                file_id: i,
                path: details.path.clone(),
                length: details.length,
                torrent_offset: details.offset,
                padding: details.padding,
            },
        );
    }
    TorrentLayout { piece_length: info.piece_length as u64, total_length: info.total_length, files }
}

/// The file with a number is the one at that place in the metadata.
pub proof fn files_keep_their_places(info: TorrentInfo, layout: TorrentLayout, file_id: usize)
    requires
        describes(info, layout),
        file_id < info.files@.len() <= usize::MAX,
    ensures
        layout.file_of(file_id) == Some(laid_out(info.files@[file_id as int], file_id)),
{
    file_at_position(layout, file_id);
}

/// The name of a torrent.
pub fn torrent_name(name: Option<String>) -> (res: String)
    ensures
        match name {
            Some(name) => res == name,
            None => res@ == "torrent"@,
        },
{
    match name {
        Some(name) => name,
        None => "torrent".to_owned(),
    }
}

/// A layout says of every file what the metadata says: its path, its length, where it starts, and
/// whether it is padding. It has the files of the metadata and no others.
pub proof fn layouts_say_what_the_metadata_says(info: TorrentInfo, layout: TorrentLayout, i: int)
    requires
        describes(info, layout),
        0 <= i < info.files@.len() <= usize::MAX,
    ensures
        layout.files@.len() == info.files@.len(),
        layout.piece_length == info.piece_length,
        layout.total_length == info.total_length,
        layout.files@[i].file_id == i,
        layout.files@[i].path@ == info.files@[i].path@,
        layout.files@[i].length == info.files@[i].length,
        layout.files@[i].torrent_offset == info.files@[i].offset,
        layout.files@[i].padding == info.files@[i].padding,
{
}

} // verus!
