//! How the files of a torrent lie in its byte stream, and the stream in pieces.

use vstd::arithmetic::div_mod::{
    lemma_div_is_ordered, lemma_fundamental_div_mod, lemma_fundamental_div_mod_converse,
    lemma_mod_bound,
};
use vstd::prelude::*;

verus! {

/// One file of a torrent.
#[derive(Debug, PartialEq, Eq)]
pub struct TorrentFile {
    pub file_id: usize,
    pub path: String,
    pub length: u64,
    pub torrent_offset: u64,
    pub padding: bool,
}

impl Clone for TorrentFile {
    fn clone(&self) -> (res: Self)
        ensures
            res == *self,
    {
        TorrentFile {
            file_id: self.file_id,
            path: self.path.clone(),
            length: self.length,
            torrent_offset: self.torrent_offset,
            padding: self.padding,
        }
    }
}

/// The files of a torrent and the size of its pieces.
#[derive(Debug, PartialEq, Eq)]
pub struct TorrentLayout {
    pub piece_length: u64,
    pub total_length: u64,
    pub files: Vec<TorrentFile>,
}

impl Clone for TorrentLayout {
    fn clone(&self) -> (res: Self)
        ensures
            res.piece_length == self.piece_length,
            res.total_length == self.total_length,
            res.files@ == self.files@,
    {
        let mut files: Vec<TorrentFile> = Vec::new();
        for i in 0..self.files.len()
            invariant
                files@ == self.files@.take(i as int),
        {
            files.push(self.files[i].clone());
            assert(self.files@.take(i as int + 1) == self.files@.take(i as int).push(
                self.files@[i as int],
            ));
        }
        assert(self.files@.take(self.files@.len() as int) == self.files@);
        TorrentLayout { piece_length: self.piece_length, total_length: self.total_length, files }
    }
}

/// A range of bytes of the whole torrent, its end excluded.
#[derive(Clone, Copy, Debug, PartialEq, Eq)]
pub struct GlobalRange {
    pub start: u64,
    pub end_exclusive: u64,
}

/// Why a file, range or piece cannot be mapped.
#[derive(Clone, Copy, Debug, PartialEq, Eq)]
pub enum LayoutError {
    /// No file has the given id.
    UnknownFile { file_id: usize },
    /// The end of the range within the file does not fit in 64 bits.
    FileRangeOverflow,
    /// The range ends behind the end of the file.
    BeyondFile { start: u64, end: u64, length: u64 },
    /// The range within the torrent does not fit in 64 bits.
    TorrentRangeOverflow,
    /// The range ends behind the end of the torrent.
    BeyondTorrent,
    /// The torrent has pieces of length zero.
    ZeroPieceLength,
    /// A piece index does not fit in 32 bits.
    PieceIndexTooLarge,
    /// The offset of the piece does not fit in 64 bits.
    PieceOffsetOverflow,
    /// The piece begins behind the end of the torrent.
    PieceOutside { piece: u32 },
}

/// The first file with the given id.
pub open spec fn first_with_id(files: Seq<TorrentFile>, file_id: usize) -> Option<TorrentFile>
    decreases files.len(),
{
    if files.len() == 0 {
        None
    } else if files[0].file_id == file_id {
        Some(files[0])
    } else {
        first_with_id(files.drop_first(), file_id)
    }
}

impl GlobalRange {
    /// Whether the range holds no byte.
    pub open spec fn vacant(self) -> bool {
        self.start >= self.end_exclusive
    }
}

impl TorrentLayout {
    /// The file with the given id.
    pub open spec fn file_of(self, file_id: usize) -> Option<TorrentFile> {
        first_with_id(self.files@, file_id)
    }

    /// The torrent range that `length` bytes from `file_start` of a file occupy, `None` for no
    /// bytes.
    pub open spec fn global_range_of(self, file_id: usize, file_start: u64, length: u64) -> Result<
        Option<GlobalRange>,
        LayoutError,
    > {
        match self.file_of(file_id) {
            None => Err(LayoutError::UnknownFile { file_id }),
            Some(file) => {
                let file_end: int = file_start + length;
                let torrent_start: int = file.torrent_offset + file_start;
                let torrent_end: int = torrent_start + length;
                if file_end > u64::MAX {
                    Err(LayoutError::FileRangeOverflow)
                } else if file_end > file.length {
                    Err(
                        LayoutError::BeyondFile {
                            start: file_start,
                            end: file_end as u64,
                            length: file.length,
                        },
                    )
                } else if length == 0 {
                    Ok(None)
                } else if torrent_end > u64::MAX {
                    Err(LayoutError::TorrentRangeOverflow)
                } else {
                    Ok(
                        Some(
                            GlobalRange {
                                start: torrent_start as u64,
                                end_exclusive: torrent_end as u64,
                            },
                        ),
                    )
                }
            },
        }
    }

    /// The first and the last piece that hold bytes of `range`, `None` for no bytes.
    pub open spec fn piece_range_of(self, range: GlobalRange) -> Result<
        Option<(u32, u32)>,
        LayoutError,
    > {
        if range.vacant() {
            Ok(None)
        } else if range.end_exclusive > self.total_length {
            Err(LayoutError::BeyondTorrent)
        } else if self.piece_length == 0 {
            Err(LayoutError::ZeroPieceLength)
        } else {
            let first: int = range.start as int / self.piece_length as int;
            let last: int = (range.end_exclusive - 1) / self.piece_length as int;
            if last > u32::MAX {
                Err(LayoutError::PieceIndexTooLarge)
            } else {
                Ok(Some((first as u32, last as u32)))
            }
        }
    }

    /// The first and the last piece that hold `length` bytes from `file_start` of a file.
    pub open spec fn file_piece_range_of(self, file_id: usize, file_start: u64, length: u64) -> Result<
        Option<(u32, u32)>,
        LayoutError,
    > {
        match self.global_range_of(file_id, file_start, length) {
            Err(error) => Err(error),
            Ok(None) => Ok(None),
            Ok(Some(range)) => self.piece_range_of(range),
        }
    }

    /// The length of a piece: the piece length, except for what is left at the end.
    pub open spec fn piece_len_of(self, piece: u32) -> Result<u64, LayoutError> {
        let start: int = piece * self.piece_length;
        if start > u64::MAX {
            Err(LayoutError::PieceOffsetOverflow)
        } else if start >= self.total_length {
            Err(LayoutError::PieceOutside { piece })
        } else if self.total_length - start < self.piece_length {
            Ok((self.total_length - start) as u64)
        } else {
            Ok(self.piece_length)
        }
    }

    /// The file with the given id; of several, the first.
    pub fn file(&self, file_id: usize) -> (res: Result<&TorrentFile, LayoutError>)
        ensures
            match self.file_of(file_id) {
                Some(file) => res == Ok::<&TorrentFile, LayoutError>(&file),
                None => res == Err::<&TorrentFile, LayoutError>(
                    LayoutError::UnknownFile { file_id },
                ),
            },
    {
        assert(self.files@.skip(0) == self.files@);
        for i in 0..self.files.len()
            invariant
                self.file_of(file_id) == first_with_id(self.files@.skip(i as int), file_id),
        {
            assert(self.files@.skip(i as int).drop_first() == self.files@.skip(i as int + 1));
            if self.files[i].file_id == file_id {
                return Ok(&self.files[i]);
            }
        }
        Err(LayoutError::UnknownFile { file_id })
    }

    /// The bytes of the torrent that `length` bytes from `file_start` of a file occupy.
    pub fn global_range(&self, file_id: usize, file_start: u64, length: u64) -> (res: Result<
        Option<GlobalRange>,
        LayoutError,
    >)
        ensures
            res == self.global_range_of(file_id, file_start, length),
    {
        let file: &TorrentFile = match self.file(file_id) {
            Ok(file) => file,
            Err(error) => {
                return Err(error);
            },
        };
        let file_end: u64 = match file_start.checked_add(length) {
            Some(file_end) => file_end,
            None => {
                return Err(LayoutError::FileRangeOverflow);
            },
        };
        if file_end > file.length {
            return Err(
                LayoutError::BeyondFile { start: file_start, end: file_end, length: file.length },
            );
        }
        if length == 0 {
            return Ok(None);
        }
        let start: u64 = match file.torrent_offset.checked_add(file_start) {
            Some(start) => start,
            None => {
                return Err(LayoutError::TorrentRangeOverflow);
            },
        };
        let end_exclusive: u64 = match start.checked_add(length) {
            Some(end_exclusive) => end_exclusive,
            None => {
                return Err(LayoutError::TorrentRangeOverflow);
            },
        };
        Ok(Some(GlobalRange { start, end_exclusive }))
    }

    /// The first and the last piece that hold bytes of `range`.
    pub fn piece_range(&self, range: GlobalRange) -> (res: Result<Option<(u32, u32)>, LayoutError>)
        ensures
            res == self.piece_range_of(range),
    {
        if range.start >= range.end_exclusive {
            return Ok(None);
        }
        if range.end_exclusive > self.total_length {
            return Err(LayoutError::BeyondTorrent);
        }
        if self.piece_length == 0 {
            return Err(LayoutError::ZeroPieceLength);
        }
        let first: u64 = range.start / self.piece_length;
        let last: u64 = (range.end_exclusive - 1) / self.piece_length;
        proof {
            lemma_div_is_ordered(
                range.start as int,
                range.end_exclusive - 1,
                self.piece_length as int,
            );
        }
        if last > u32::MAX as u64 {
            return Err(LayoutError::PieceIndexTooLarge);
        }
        Ok(Some((first as u32, last as u32)))
    }

    /// The first and the last piece that hold `length` bytes from `file_start` of a file.
    pub fn file_piece_range(&self, file_id: usize, file_start: u64, length: u64) -> (res: Result<
        Option<(u32, u32)>,
        LayoutError,
    >)
        ensures
            res == self.file_piece_range_of(file_id, file_start, length),
    {
        match self.global_range(file_id, file_start, length) {
            Err(error) => Err(error),
            Ok(None) => Ok(None),
            Ok(Some(range)) => self.piece_range(range),
        }
    }

    /// The length of a piece.
    pub fn piece_len(&self, piece: u32) -> (res: Result<u64, LayoutError>)
        ensures
            res == self.piece_len_of(piece),
    {
        let start: u64 = match (piece as u64).checked_mul(self.piece_length) {
            Some(start) => start,
            None => {
                return Err(LayoutError::PieceOffsetOverflow);
            },
        };
        if start >= self.total_length {
            return Err(LayoutError::PieceOutside { piece });
        }
        let rest: u64 = self.total_length - start;
        if rest < self.piece_length {
            Ok(rest)
        } else {
            Ok(self.piece_length)
        }
    }
}

/// Where files are numbered by their position, the file with an id is the one at that position.
pub proof fn file_at_position(layout: TorrentLayout, file_id: usize)
    requires
        forall|i: int| 0 <= i < layout.files@.len() ==> (#[trigger] layout.files@[i]).file_id == i,
        file_id < layout.files@.len(),
    ensures
        layout.file_of(file_id) == Some(layout.files@[file_id as int]),
{
    lemma_first_with_id(layout.files@, file_id, file_id as int);
}

proof fn lemma_first_with_id(files: Seq<TorrentFile>, file_id: usize, at: int)
    requires
        0 <= at < files.len(),
        files[at].file_id == file_id,
        forall|i: int| 0 <= i < at ==> (#[trigger] files[i]).file_id != file_id,
    ensures
        first_with_id(files, file_id) == Some(files[at]),
    decreases files.len(),
{
    if at > 0 {
        assert(files[0].file_id != file_id);
        assert forall|i: int| 0 <= i < at - 1 implies (
        #[trigger] files.drop_first()[i]).file_id != file_id by {
            assert(files.drop_first()[i] == files[i + 1]);
        }
        lemma_first_with_id(files.drop_first(), file_id, at - 1);
    }
}

/// Every byte of the torrent lies in exactly one piece, the one whose index is the byte's offset
/// divided by the piece length, and that piece has a length.
pub proof fn every_byte_has_its_piece(layout: TorrentLayout, byte: u64, piece: u32)
    requires
        layout.piece_length > 0,
        byte < layout.total_length,
    ensures
        (layout.piece_len_of(piece) matches Ok(len) && piece * layout.piece_length <= byte < piece
            * layout.piece_length + len) <==> piece == byte as int / layout.piece_length as int,
{
    let size = layout.piece_length as int;
    let start = piece * layout.piece_length;
    lemma_fundamental_div_mod(byte as int, size);
    lemma_mod_bound(byte as int, size);
    if piece == byte as int / size {
        assert(start == size * (byte as int / size)) by (nonlinear_arith)
            requires
                start == piece * layout.piece_length,
                size == layout.piece_length,
                piece == byte as int / size,
        ;
    }
    if start <= byte < start + size {
        lemma_fundamental_div_mod_converse(byte as int, size, piece as int, byte - start);
    }
}

/// The sum of the lengths of the first `count` pieces, where a piece outside the torrent has
/// none.
pub open spec fn pieces_total(layout: TorrentLayout, count: nat) -> int
    decreases count,
{
    if count == 0 {
        0
    } else {
        pieces_total(layout, (count - 1) as nat) + match layout.piece_len_of((count - 1) as u32) {
            Ok(len) => len as int,
            Err(_) => 0,
        }
    }
}

/// The lengths of the first `count` pieces add up to `count` times the piece length, or to the
/// length of the torrent if that is less.
pub proof fn pieces_fill_the_torrent(layout: TorrentLayout, count: nat)
    requires
        count <= u32::MAX + 1,
    ensures
        pieces_total(layout, count) == (if count * layout.piece_length < layout.total_length {
            count * layout.piece_length
        } else {
            layout.total_length as int
        }),
    decreases count,
{
    if count > 0 {
        let before = (count - 1) as nat;
        pieces_fill_the_torrent(layout, before);
        assert(count * layout.piece_length == before * layout.piece_length + layout.piece_length)
            by (nonlinear_arith)
            requires
                count == before + 1,
        ;
    } else {
        assert(count * layout.piece_length == 0) by (nonlinear_arith)
            requires
                count == 0,
        ;
    }
}

/// A range that maps to pieces is covered by them: each of its bytes lies in one of the pieces,
/// and the first and the last piece each hold one of its bytes.
pub proof fn pieces_cover_the_range(
    layout: TorrentLayout,
    file_id: usize,
    file_start: u64,
    length: u64,
    at: u64,
)
    requires
        layout.file_piece_range_of(file_id, file_start, length) matches Ok(Some(_)),
        at < length,
    ensures
        ({
            let (first, last) = layout.file_piece_range_of(file_id, file_start, length)->Ok_0->Some_0;
            let offset = layout.file_of(file_id)->Some_0.torrent_offset;
            let size = layout.piece_length as int;
            &&& size > 0
            &&& offset + file_start + length <= layout.total_length
            &&& first <= (offset + file_start + at) / size <= last
            &&& first == (offset + file_start) / size
            &&& last == (offset + file_start + length - 1) / size
        }),
{
    let offset = layout.file_of(file_id)->Some_0.torrent_offset;
    let size = layout.piece_length as int;
    lemma_div_is_ordered(offset + file_start, offset + file_start + at, size);
    lemma_div_is_ordered(offset + file_start + at, offset + file_start + length - 1, size);
    lemma_fundamental_div_mod(offset + file_start, size);
    assert((offset + file_start) / size >= 0) by {
        vstd::arithmetic::div_mod::lemma_div_pos_is_pos(offset + file_start, size);
    }
}

/// Bytes of a file that lie within it are found in the torrent behind the offset of the file, as
/// many as were asked for; no bytes are found nowhere.
pub proof fn bytes_lie_behind_the_offset(
    layout: TorrentLayout,
    file: TorrentFile,
    file_start: u64,
    length: u64,
)
    requires
        layout.file_of(file.file_id) == Some(file),
        file_start + length <= file.length,
        file.torrent_offset + file.length <= u64::MAX,
    ensures
        length == 0 ==> layout.global_range_of(file.file_id, file_start, length) == Ok::<
            Option<GlobalRange>,
            LayoutError,
        >(None),
        length > 0 ==> (layout.global_range_of(file.file_id, file_start, length) matches Ok(
            Some(range),
        ) && range.start == file.torrent_offset + file_start && range.end_exclusive - range.start
            == length),
{
}

/// Bytes behind the end of a file are not found, nor are bytes of a file that does not exist.
pub proof fn bytes_outside_files_are_not_found(
    layout: TorrentLayout,
    file_id: usize,
    file_start: u64,
    length: u64,
)
    ensures
        (forall|i: int|
            0 <= i < layout.files@.len() ==> (#[trigger] layout.files@[i]).file_id != file_id)
            ==> layout.global_range_of(file_id, file_start, length) == Err::<
            Option<GlobalRange>,
            LayoutError,
        >(LayoutError::UnknownFile { file_id }),
        layout.file_of(file_id) matches Some(file) ==> file_start + length > file.length
            ==> layout.global_range_of(file_id, file_start, length) is Err
            && layout.file_piece_range_of(file_id, file_start, length) is Err,
{
    if forall|i: int|
        0 <= i < layout.files@.len() ==> (#[trigger] layout.files@[i]).file_id != file_id {
        lemma_no_file(layout.files@, file_id);
    }
}

proof fn lemma_no_file(files: Seq<TorrentFile>, file_id: usize)
    requires
        forall|i: int| 0 <= i < files.len() ==> (#[trigger] files[i]).file_id != file_id,
    ensures
        first_with_id(files, file_id) is None,
    decreases files.len(),
{
    if files.len() > 0 {
        assert forall|i: int| 0 <= i < files.len() - 1 implies (
        #[trigger] files.drop_first()[i]).file_id != file_id by {
            assert(files.drop_first()[i] == files[i + 1]);
        }
        lemma_no_file(files.drop_first(), file_id);
    }
}

/// The file with an id has that id and is one of the files; it is the first of them.
pub proof fn files_have_their_ids(layout: TorrentLayout, file_id: usize)
    ensures
        layout.file_of(file_id) matches Some(file) ==> file.file_id == file_id && exists|i: int|
            0 <= i < layout.files@.len() && #[trigger] layout.files@[i] == file && forall|j: int|
                0 <= j < i ==> (#[trigger] layout.files@[j]).file_id != file_id,
{
    if layout.file_of(file_id) is Some {
        lemma_file_found(layout.files@, file_id);
    }
}

proof fn lemma_file_found(files: Seq<TorrentFile>, file_id: usize) -> (at: int)
    requires
        first_with_id(files, file_id) is Some,
    ensures
        0 <= at < files.len(),
        first_with_id(files, file_id) == Some(files[at]),
        files[at].file_id == file_id,
        forall|j: int| 0 <= j < at ==> (#[trigger] files[j]).file_id != file_id,
    decreases files.len(),
{
    if files[0].file_id == file_id {
        0
    } else {
        let at = lemma_file_found(files.drop_first(), file_id);
        assert forall|j: int| 0 <= j < at + 1 implies (#[trigger] files[j]).file_id != file_id by {
            if j > 0 {
                assert(files.drop_first()[j - 1] == files[j]);
            }
        }
        at + 1
    }
}

/// A stretch of the torrent has pieces exactly if it lies within it and its pieces can be
/// numbered: those of its first and of its last byte, and all between them.
pub proof fn stretches_have_the_pieces_of_their_bytes(layout: TorrentLayout, start: u64, end: u64)
    requires
        layout.piece_length > 0,
        layout.total_length <= layout.piece_length * 0x1_0000_0000,
    ensures
        start >= end ==> layout.piece_range_of(GlobalRange { start, end_exclusive: end }) == Ok::<
            Option<(u32, u32)>,
            LayoutError,
        >(None),
        start < end && end > layout.total_length ==> layout.piece_range_of(
            GlobalRange { start, end_exclusive: end },
        ) == Err::<Option<(u32, u32)>, LayoutError>(LayoutError::BeyondTorrent),
        start < end && end <= layout.total_length ==> (layout.piece_range_of(
            GlobalRange { start, end_exclusive: end },
        ) matches Ok(Some(pieces)) && pieces.0 * layout.piece_length <= start && start < (pieces.0
            + 1) * layout.piece_length && pieces.1 * layout.piece_length < end && end <= (pieces.1
            + 1) * layout.piece_length),
{
    if start < end && end <= layout.total_length {
        let size = layout.piece_length as int;
        let first = start as int / size;
        let last = (end - 1) / size;
        lemma_fundamental_div_mod(start as int, size);
        lemma_fundamental_div_mod(end - 1, size);
        lemma_mod_bound(start as int, size);
        lemma_mod_bound(end - 1, size);
        lemma_div_is_ordered(start as int, end - 1, size);
        assert(0 <= first && last <= u32::MAX && first * size <= start < (first + 1) * size && last
            * size < end <= (last + 1) * size) by (nonlinear_arith)
            requires
                0 <= start < end <= size * 0x1_0000_0000,
                size > 0,
                start == size * first + start as int % size,
                end - 1 == size * last + (end - 1) % size,
                0 <= start as int % size < size,
                0 <= (end - 1) % size < size,
        ;
    }
}

/// A piece that starts within the torrent ends with it or after a piece length, whichever comes
/// first; a piece behind the end does not exist.
pub proof fn pieces_end_with_the_torrent(layout: TorrentLayout, piece: u32)
    requires
        piece * layout.piece_length <= u64::MAX,
    ensures
        piece * layout.piece_length < layout.total_length ==> (layout.piece_len_of(piece) matches Ok(
            length,
        ) && length <= layout.piece_length && piece * layout.piece_length + length
            <= layout.total_length && (length == layout.piece_length || piece * layout.piece_length
            + length == layout.total_length)),
        piece * layout.piece_length >= layout.total_length ==> layout.piece_len_of(piece) == Err::<
            u64,
            LayoutError,
        >(LayoutError::PieceOutside { piece }),
{
}

} // verus!
