//! A hard limit on how much of a torrent is materialized, counted in whole pieces.

use crate::torrent::layout::TorrentLayout;
use std::collections::HashSet;
use vstd::arithmetic::div_mod::{
    lemma_div_is_ordered, lemma_fundamental_div_mod, lemma_mod_bound,
};
use vstd::prelude::*;

verus! {

broadcast use vstd::std_specs::hash::group_hash_axioms;

/// Makes the quota of a torrent, given a limit in bytes.
#[derive(Clone, Copy, Debug, PartialEq, Eq)]
pub struct QuotaStorageFactory {
    pub limit: u64,
}

/// What the quota has to know of a torrent: its limit, its pieces, and the offset and length of
/// each of its files.
#[derive(Debug)]
pub struct QuotaStorage {
    pub limit: u64,
    pub piece_length: u64,
    pub total_length: u64,
    pub file_offsets: Vec<(u64, u64)>,
}

/// The pieces reserved so far and the bytes that they count for.
#[derive(Debug)]
pub struct QuotaState {
    pub reserved_bytes: u64,
    pub pieces: HashSet<u32>,
}

/// Why a write is refused.
#[derive(Clone, Copy, Debug, PartialEq, Eq)]
pub enum QuotaError {
    /// No file has the given id.
    UnknownFile,
    /// The end of the write within the file does not fit in 64 bits.
    OffsetOverflow,
    /// The write ends behind the end of the file.
    BeyondFile,
    /// The start of the write within the torrent does not fit in 64 bits.
    GlobalOffsetOverflow,
    /// The end of the write within the torrent does not fit in 64 bits.
    GlobalRangeOverflow,
    /// A piece index does not fit in 32 bits.
    TooManyPieces,
    /// The pieces of the write would exceed the limit.
    LimitExceeded { limit: u64 },
}

/// What is reserved: the bytes counted and the set of pieces.
#[verifier::ext_equal]
pub struct Reservation {
    pub bytes: int,
    pub pieces: Set<u32>,
}

impl View for QuotaState {
    type V = Reservation;

    open spec fn view(&self) -> Reservation {
        Reservation { bytes: self.reserved_bytes as int, pieces: self.pieces@ }
    }
}

/// The pieces of `pieces` together with those from index `first` to index `last`.
pub open spec fn with_pieces(pieces: Set<u32>, first: int, last: int) -> Set<u32> {
    Set::new(|piece: u32| pieces.contains(piece) || first <= piece <= last)
}

impl QuotaStorage {
    /// The number of bytes of the torrent that lie in the piece with the given index.
    pub open spec fn piece_size(self, piece: int) -> int {
        let rest = self.total_length - piece * self.piece_length;
        if rest < 0 {
            0
        } else if rest < self.piece_length {
            rest
        } else {
            self.piece_length as int
        }
    }

    /// The bytes of those pieces from index `from` up to, not including, index `to` that are
    /// not yet in `pieces`.
    pub open spec fn missing(self, pieces: Set<u32>, from: int, to: int) -> int
        decreases to - from,
    {
        if to <= from {
            0
        } else {
            self.missing(pieces, from, to - 1) + if pieces.contains((to - 1) as u32) {
                0
            } else {
                self.piece_size(to - 1)
            }
        }
    }

    /// The bytes of those pieces below index `to` that are in `pieces`.
    pub open spec fn held(self, pieces: Set<u32>, to: int) -> int
        decreases to,
    {
        if to <= 0 {
            0
        } else {
            self.held(pieces, to - 1) + if pieces.contains((to - 1) as u32) {
                self.piece_size(to - 1)
            } else {
                0
            }
        }
    }

    /// Whether the bytes counted are those of the reserved pieces, and within the limit.
    pub open spec fn consistent(self, state: Reservation) -> bool {
        &&& state.bytes == self.held(state.pieces, u32::MAX + 1)
        &&& state.bytes <= self.limit
    }

    /// The torrent offsets at which a write of at least one byte begins and ends.
    pub open spec fn span_of(self, file_id: usize, offset: u64, length: usize) -> Result<
        (int, int),
        QuotaError,
    > {
        if file_id >= self.file_offsets@.len() {
            Err(QuotaError::UnknownFile)
        } else {
            let (file_offset, file_length) = self.file_offsets@[file_id as int];
            if offset + length > u64::MAX {
                Err(QuotaError::OffsetOverflow)
            } else if offset + length > file_length {
                Err(QuotaError::BeyondFile)
            } else if file_offset + offset > u64::MAX {
                Err(QuotaError::GlobalOffsetOverflow)
            } else if file_offset + offset + length > u64::MAX {
                Err(QuotaError::GlobalRangeOverflow)
            } else {
                Ok((file_offset + offset, file_offset + offset + length))
            }
        }
    }

    /// The first and the last piece that a write of at least one byte touches.
    pub open spec fn touched(self, file_id: usize, offset: u64, length: usize) -> Result<
        (int, int),
        QuotaError,
    > {
        match self.span_of(file_id, offset, length) {
            Err(error) => Err(error),
            Ok((start, end)) => {
                let first = start / self.piece_length as int;
                let last = (end - 1) / self.piece_length as int;
                if last > u32::MAX {
                    Err(QuotaError::TooManyPieces)
                } else {
                    Ok((first, last))
                }
            },
        }
    }

    /// What is reserved after a write: nothing more for a write of no bytes, otherwise every
    /// piece that the write touches, if the limit allows for those not reserved before.
    pub open spec fn reserved_after(
        self,
        state: Reservation,
        file_id: usize,
        offset: u64,
        length: usize,
    ) -> Result<Reservation, QuotaError> {
        if length == 0 {
            Ok(state)
        } else {
            match self.touched(file_id, offset, length) {
                Err(error) => Err(error),
                Ok((first, last)) => {
                    let bytes = state.bytes + self.missing(state.pieces, first, last + 1);
                    if bytes > self.limit {
                        Err(QuotaError::LimitExceeded { limit: self.limit })
                    } else {
                        Ok(
                            Reservation {
                                bytes,
                                pieces: with_pieces(state.pieces, first, last),
                            },
                        )
                    }
                },
            }
        }
    }

    /// The pieces that a write touches, in order.
    pub open spec fn touched_pieces(self, file_id: usize, offset: u64, length: usize) -> Seq<u32> {
        if length == 0 {
            Seq::empty()
        } else {
            let (first, last) = self.touched(file_id, offset, length)->Ok_0;
            Seq::new((last - first + 1) as nat, |i: int| (first + i) as u32)
        }
    }

    /// The number of bytes of the torrent that lie in the given piece.
    pub fn piece_len(&self, piece: u32) -> (res: u64)
        requires
            piece * self.piece_length <= u64::MAX,
        ensures
            res == self.piece_size(piece as int),
    {
        let start: u64 = piece as u64 * self.piece_length;
        let rest: u64 = self.total_length.saturating_sub(start);
        if rest < self.piece_length {
            rest
        } else {
            self.piece_length
        }
    }

    /// The torrent offsets at which a write of at least one byte begins and ends.
    pub fn span(&self, file_id: usize, offset: u64, length: usize) -> (res: Result<
        (u64, u64),
        QuotaError,
    >)
        ensures
            match self.span_of(file_id, offset, length) {
                Ok((start, end)) => res matches Ok(span) && span.0 == start && span.1 == end,
                Err(error) => res == Err::<(u64, u64), QuotaError>(error),
            },
    {
        if file_id >= self.file_offsets.len() {
            return Err(QuotaError::UnknownFile);
        }
        let (file_offset, file_length): (u64, u64) = self.file_offsets[file_id];
        let end: u64 = match offset.checked_add(length as u64) {
            Some(end) => end,
            None => {
                return Err(QuotaError::OffsetOverflow);
            },
        };
        if end > file_length {
            return Err(QuotaError::BeyondFile);
        }
        let global_start: u64 = match file_offset.checked_add(offset) {
            Some(global_start) => global_start,
            None => {
                return Err(QuotaError::GlobalOffsetOverflow);
            },
        };
        let global_end: u64 = match global_start.checked_add(length as u64) {
            Some(global_end) => global_end,
            None => {
                return Err(QuotaError::GlobalRangeOverflow);
            },
        };
        Ok((global_start, global_end))
    }

    /// Pieces one after the other hold no more bytes than the torrent.
    proof fn lemma_missing_bounded(self, pieces: Set<u32>, from: int, to: int)
        requires
            0 <= from <= to,
        ensures
            0 <= self.missing(pieces, from, to) <= self.total_length,
            self.missing(pieces, from, to) <= to * self.piece_length - from * self.piece_length,
            self.missing(pieces, from, to) == 0 || self.missing(pieces, from, to)
                <= self.total_length - from * self.piece_length,
        decreases to - from,
    {
        if from < to {
            self.lemma_missing_bounded(pieces, from, to - 1);
            assert((to - 1) * self.piece_length + self.piece_length == to * self.piece_length
                && from * self.piece_length <= (to - 1) * self.piece_length && from
                * self.piece_length >= 0) by (nonlinear_arith)
                requires
                    0 <= from < to,
            ;
        } else {
            assert(to * self.piece_length - from * self.piece_length == 0) by (nonlinear_arith)
                requires
                    from == to,
            ;
        }
    }

    /// What is missing over two adjacent stretches of pieces adds up.
    proof fn lemma_missing_split(self, pieces: Set<u32>, from: int, mid: int, to: int)
        requires
            from <= mid <= to,
        ensures
            self.missing(pieces, from, to) == self.missing(pieces, from, mid) + self.missing(
                pieces,
                mid,
                to,
            ),
        decreases to - mid,
    {
        if mid < to {
            self.lemma_missing_split(pieces, from, mid, to - 1);
        }
    }

    /// What is missing does not depend on pieces outside the stretch.
    proof fn lemma_missing_same(self, a: Set<u32>, b: Set<u32>, from: int, to: int)
        requires
            0 <= from,
            to <= u32::MAX + 1,
            forall|piece: u32| from <= piece < to ==> a.contains(piece) == b.contains(piece),
        ensures
            self.missing(a, from, to) == self.missing(b, from, to),
        decreases to - from,
    {
        if from < to {
            self.lemma_missing_same(a, b, from, to - 1);
        }
    }

    /// Nothing is missing of a stretch whose pieces are all there.
    proof fn lemma_nothing_missing(self, pieces: Set<u32>, from: int, to: int)
        requires
            0 <= from,
            to <= u32::MAX + 1,
            forall|piece: u32| from <= piece < to ==> pieces.contains(piece),
        ensures
            self.missing(pieces, from, to) == 0,
        decreases to - from,
    {
        if from < to {
            self.lemma_nothing_missing(pieces, from, to - 1);
            assert(pieces.contains((to - 1) as u32));
        }
    }

    /// Adding a stretch of pieces adds exactly the bytes that were missing of it.
    proof fn lemma_held_grows(self, pieces: Set<u32>, first: int, last: int, to: int)
        requires
            0 <= first <= last + 1,
            last <= u32::MAX,
            to <= u32::MAX + 1,
        ensures
            self.held(with_pieces(pieces, first, last), to) == self.held(pieces, to)
                + self.missing(
                pieces,
                first,
                if to <= last + 1 {
                    to
                } else {
                    last + 1
                },
            ),
        decreases to,
    {
        if to > 0 {
            self.lemma_held_grows(pieces, first, last, to - 1);
        }
    }

    /// Reserves the pieces that a write of `length` bytes at `offset` of a file touches, and
    /// gives their indices. On an error nothing is reserved.
    pub fn reserve(
        &self,
        state: &mut QuotaState,
        file_id: usize,
        offset: u64,
        length: usize,
    ) -> (res: Result<Vec<u32>, QuotaError>)
        requires
            self.consistent(old(state)@),
            length > 0 && self.span_of(file_id, offset, length) is Ok ==> self.piece_length > 0,
        ensures
            self.consistent(final(state)@),
            match self.reserved_after(old(state)@, file_id, offset, length) {
                Ok(after) => {
                    &&& res matches Ok(pieces) && pieces@ == self.touched_pieces(
                        file_id,
                        offset,
                        length,
                    )
                    &&& final(state)@ == after
                },
                Err(error) => res == Err::<Vec<u32>, QuotaError>(error) && *final(state) == *old(
                    state,
                ),
            },
    {
        if length == 0 {
            return Ok(Vec::new());
        }
        let (global_start, global_end): (u64, u64) = match self.span(file_id, offset, length) {
            Ok(span) => span,
            Err(error) => {
                return Err(error);
            },
        };
        let first: u64 = global_start / self.piece_length;
        let last: u64 = (global_end - 1) / self.piece_length;
        if last > u32::MAX as u64 {
            return Err(QuotaError::TooManyPieces);
        }
        proof {
            lemma_div_is_ordered(global_start as int, global_end - 1, self.piece_length as int);
            lemma_fundamental_div_mod(global_end - 1, self.piece_length as int);
            lemma_mod_bound(global_end - 1, self.piece_length as int);
            assert(last * self.piece_length <= u64::MAX) by (nonlinear_arith)
                requires
                    self.piece_length * last <= u64::MAX,
            ;
        }
        let ghost before = state@;
        let mut touched: Vec<u32> = Vec::new();
        let mut additional: u64 = 0;
        let mut piece: u64 = first;
        while piece <= last
            invariant
                first <= piece <= last + 1,
                last <= u32::MAX,
                last * self.piece_length <= u64::MAX,
                state@ == before,
                additional == self.missing(before.pieces, first as int, piece as int),
                touched@ =~= Seq::new((piece - first) as nat, |i: int| (first + i) as u32),
            decreases last + 1 - piece,
        {
            touched.push(piece as u32);
            if !state.pieces.contains(&(piece as u32)) {
                proof {
                    assert(piece * self.piece_length <= last * self.piece_length)
                        by (nonlinear_arith)
                        requires
                            piece <= last,
                    ;
                    self.lemma_missing_bounded(before.pieces, first as int, piece + 1);
                }
                additional += self.piece_len(piece as u32);
            }
            piece += 1;
        }
        proof {
            self.lemma_held_grows(before.pieces, first as int, last as int, u32::MAX + 1);
            self.lemma_held_bounded(
                with_pieces(before.pieces, first as int, last as int),
                u32::MAX + 1,
            );
        }
        if state.reserved_bytes.saturating_add(additional) > self.limit {
            return Err(QuotaError::LimitExceeded { limit: self.limit });
        }
        piece = first;
        while piece <= last
            invariant
                first <= piece <= last + 1,
                last <= u32::MAX,
                last * self.piece_length <= u64::MAX,
                state@.pieces =~= with_pieces(before.pieces, first as int, piece - 1),
                state@.bytes == before.bytes + self.missing(
                    before.pieces,
                    first as int,
                    piece as int,
                ),
                before.bytes + self.missing(before.pieces, first as int, last + 1) <= self.limit,
            decreases last + 1 - piece,
        {
            proof {
                self.lemma_missing_split(before.pieces, first as int, piece + 1, last + 1);
                self.lemma_missing_bounded(before.pieces, piece + 1, last + 1);
                assert(piece * self.piece_length <= last * self.piece_length) by (nonlinear_arith)
                    requires
                        piece <= last,
                ;
            }
            if state.pieces.insert(piece as u32) {
                let size: u64 = self.piece_len(piece as u32);
                state.reserved_bytes = state.reserved_bytes + size;
            }
            piece += 1;
        }
        Ok(touched)
    }
}

impl QuotaState {
    /// Nothing is reserved at first.
    pub fn new() -> (res: QuotaState)
        ensures
            res@ == (Reservation { bytes: 0, pieces: Set::empty() }),
    {
        QuotaState { reserved_bytes: 0, pieces: HashSet::new() }
    }
}

impl QuotaStorageFactory {
    /// A factory of quotas with the given limit in bytes.
    pub fn new(limit: u64) -> (res: Self)
        ensures
            res.limit == limit,
    {
        QuotaStorageFactory { limit }
    }

    /// The quota of a torrent with the given pieces and files, and its state at first.
    pub fn create(&self, piece_length: u64, total_length: u64, file_offsets: Vec<(u64, u64)>) -> (res:
        (QuotaStorage, QuotaState))
        ensures
            res.0 == (QuotaStorage { limit: self.limit, piece_length, total_length, file_offsets }),
            res.1@ == (Reservation { bytes: 0, pieces: Set::empty() }),
            res.0.consistent(res.1@),
    {
        let quota = QuotaStorage { limit: self.limit, piece_length, total_length, file_offsets };
        proof {
            quota.lemma_none_held(u32::MAX + 1);
        }
        (quota, QuotaState::new())
    }
}

impl QuotaStorage {
    proof fn lemma_none_held(self, to: int)
        ensures
            self.held(Set::empty(), to) == 0,
        decreases to,
    {
        if to > 0 {
            self.lemma_none_held(to - 1);
        }
    }

    /// However many bytes are reserved, they never exceed the limit: a reservation that is
    /// granted leaves the count within it.
    pub proof fn limit_is_hard(
        self,
        state: Reservation,
        file_id: usize,
        offset: u64,
        length: usize,
    )
        requires
            state.bytes <= self.limit,
        ensures
            self.reserved_after(state, file_id, offset, length) matches Ok(after) ==> after.bytes
                <= self.limit,
    {
    }

    /// Once a write is reserved, every write within it is granted for free, so a write in two
    /// parts takes no more than the whole.
    pub proof fn parts_of_a_reserved_write_are_free(
        self,
        state: Reservation,
        file_id: usize,
        offset: u64,
        length: usize,
        part_offset: u64,
        part_length: usize,
    )
        requires
            self.piece_length > 0,
            state.bytes <= self.limit,
            self.reserved_after(state, file_id, offset, length) is Ok,
            offset <= part_offset,
            part_offset + part_length <= offset + length,
        ensures
            ({
                let after = self.reserved_after(state, file_id, offset, length)->Ok_0;
                self.reserved_after(after, file_id, part_offset, part_length) == Ok::<
                    Reservation,
                    QuotaError,
                >(after)
            }),
    {
        if part_length > 0 {
            let after = self.reserved_after(state, file_id, offset, length)->Ok_0;
            let (start, end) = self.span_of(file_id, offset, length)->Ok_0;
            let (part_start, part_end) = self.span_of(file_id, part_offset, part_length)->Ok_0;
            let size = self.piece_length as int;
            lemma_div_is_ordered(start, part_start, size);
            lemma_div_is_ordered(part_start, part_end - 1, size);
            lemma_div_is_ordered(part_end - 1, end - 1, size);
            vstd::arithmetic::div_mod::lemma_div_pos_is_pos(start, size);
            let (first, last) = self.touched(file_id, part_offset, part_length)->Ok_0;
            self.lemma_nothing_missing(after.pieces, first, last + 1);
            assert(with_pieces(after.pieces, first, last) =~= after.pieces);
        }
    }

    /// The bytes counted never exceed the length of the torrent.
    pub proof fn counts_stay_within_the_torrent(self, state: Reservation)
        requires
            self.consistent(state),
        ensures
            0 <= state.bytes <= self.total_length,
    {
        self.lemma_held_bounded(state.pieces, u32::MAX + 1);
    }

    proof fn lemma_held_bounded(self, pieces: Set<u32>, to: int)
        requires
            0 <= to,
        ensures
            0 <= self.held(pieces, to) <= self.total_length,
            self.held(pieces, to) <= to * self.piece_length,
        decreases to,
    {
        if to > 0 {
            self.lemma_held_bounded(pieces, to - 1);
            assert((to - 1) * self.piece_length + self.piece_length == to * self.piece_length)
                by (nonlinear_arith);
        }
    }
}

/// The quota and the layout of a torrent agree on the length of every piece that exists.
pub proof fn quota_and_layout_agree(
    quota: QuotaStorage,
    layout: TorrentLayout,
    piece: u32,
)
    requires
        quota.piece_length == layout.piece_length,
        quota.total_length == layout.total_length,
        layout.piece_len_of(piece) is Ok,
    ensures
        quota.piece_size(piece as int) == layout.piece_len_of(piece)->Ok_0,
{
}

/// Whether a byte of the torrent lies in a piece of the given length.
pub open spec fn lies_in(byte: int, piece: int, piece_length: int) -> bool {
    piece * piece_length <= byte < piece * piece_length + piece_length
}

/// Whether a write of `length` bytes at `offset` of the file with the given offset in the torrent
/// puts at least one byte into a piece.
pub open spec fn writes_into(
    file_offset: int,
    offset: int,
    length: int,
    piece: int,
    piece_length: int,
) -> bool {
    exists|byte: int|
        file_offset + offset <= byte < file_offset + offset + length && #[trigger] lies_in(
            byte,
            piece,
            piece_length,
        )
}

/// A stretch of bytes puts a byte into a piece exactly if the piece is none before that of its
/// first byte and none behind that of its last byte.
proof fn lemma_writes_into(start: int, length: int, piece: int, size: int)
    requires
        0 <= start,
        0 < length,
        0 < size,
    ensures
        writes_into(start, 0, length, piece, size) <==> start / size <= piece <= (start + length - 1)
            / size,
{
    let last = start + length - 1;
    lemma_fundamental_div_mod(start, size);
    lemma_fundamental_div_mod(last, size);
    lemma_mod_bound(start, size);
    lemma_mod_bound(last, size);
    let first_piece = start / size;
    let last_piece = last / size;
    if writes_into(start, 0, length, piece, size) {
        let byte = choose|byte: int|
            start + 0 <= byte < start + 0 + length && #[trigger] lies_in(byte, piece, size);
        assert(first_piece <= piece <= last_piece) by (nonlinear_arith)
            requires
                piece * size <= byte < piece * size + size,
                start <= byte <= last,
                start == size * first_piece + start % size,
                last == size * last_piece + last % size,
                0 <= start % size < size,
                0 <= last % size < size,
                size > 0,
        ;
    }
    if first_piece <= piece <= last_piece {
        let byte = if piece == first_piece {
            start
        } else {
            piece * size
        };
        assert(lies_in(byte, piece, size) && start <= byte <= last) by (nonlinear_arith)
            requires
                byte == (if piece == first_piece { start } else { piece * size }),
                first_piece <= piece <= last_piece,
                start <= last,
                start == size * first_piece + start % size,
                last == size * last_piece + last % size,
                0 <= start % size < size,
                0 <= last % size < size,
                size > 0,
        ;
        assert(start + 0 <= byte < start + 0 + length);
    }
}

/// Where a write goes that lies within its file, whose pieces can be numbered, and that has at
/// least one byte.
pub open spec fn well_placed_write(
    quota: QuotaStorage,
    file_id: usize,
    offset: u64,
    length: usize,
) -> bool {
    &&& length > 0
    &&& quota.piece_length > 0
    &&& file_id < quota.file_offsets@.len()
    &&& offset + length <= quota.file_offsets@[file_id as int].1
    &&& quota.file_offsets@[file_id as int].0 + offset + length <= u64::MAX
    &&& quota.file_offsets@[file_id as int].0 + offset + length <= quota.piece_length
        * 0x1_0000_0000
}

/// A granted reservation takes exactly the pieces into which the write puts at least one byte:
/// they are the ones that are given, each once and in order, and they and those that were
/// reserved before are the reserved ones afterwards.
pub proof fn writes_take_the_pieces_they_touch(
    quota: QuotaStorage,
    state: Reservation,
    file_id: usize,
    offset: u64,
    length: usize,
    piece: u32,
)
    requires
        quota.piece_length > 0,
        length > 0,
        quota.reserved_after(state, file_id, offset, length) is Ok,
    ensures
        ({
            let file_offset = quota.file_offsets@[file_id as int].0 as int;
            let size = quota.piece_length as int;
            let touched = quota.touched_pieces(file_id, offset, length);
            let after = quota.reserved_after(state, file_id, offset, length)->Ok_0;
            let hit = writes_into(file_offset, offset as int, length as int, piece as int, size);
            &&& touched.contains(piece) <==> hit
            &&& after.pieces.contains(piece) <==> state.pieces.contains(piece) || hit
            &&& forall|i: int, j: int|
                0 <= i < j < touched.len() ==> #[trigger] touched[i] < #[trigger] touched[j]
        }),
{
    let file_offset = quota.file_offsets@[file_id as int].0 as int;
    let size = quota.piece_length as int;
    let start = file_offset + offset;
    let touched = quota.touched_pieces(file_id, offset, length);
    lemma_writes_into(start, length as int, piece as int, size);
    lemma_div_is_ordered(start, start + length - 1, size);
    vstd::arithmetic::div_mod::lemma_div_pos_is_pos(start, size);
    assert(writes_into(file_offset, offset as int, length as int, piece as int, size)
        == writes_into(start, 0, length as int, piece as int, size)) by {
        assert forall|byte: int| #[trigger] lies_in(byte, piece as int, size) implies (file_offset
            + offset <= byte < file_offset + offset + length) == (start + 0 <= byte < start + 0
            + length) by {
        }
    }
    let (first, last) = quota.touched(file_id, offset, length)->Ok_0;
    if first <= piece <= last {
        assert(touched[piece - first] == piece);
    }
    if touched.contains(piece) {
        let i = choose|i: int| 0 <= i < touched.len() && touched[i] == piece;
        assert(touched[i] == (first + i) as u32);
    }
}

/// A write is granted exactly if the pieces that were reserved before and those it touches hold,
/// together, no more bytes than the limit; they are what is counted afterwards. Otherwise it is
/// refused for the limit.
pub proof fn the_limit_alone_refuses_writes(
    quota: QuotaStorage,
    state: Reservation,
    file_id: usize,
    offset: u64,
    length: usize,
)
    requires
        quota.consistent(state),
        well_placed_write(quota, file_id, offset, length),
    ensures
        ({
            let file_offset = quota.file_offsets@[file_id as int].0 as int;
            let size = quota.piece_length as int;
            let pieces = Set::new(
                |piece: u32|
                    state.pieces.contains(piece) || writes_into(
                        file_offset,
                        offset as int,
                        length as int,
                        piece as int,
                        size,
                    ),
            );
            let bytes = quota.held(pieces, u32::MAX + 1);
            quota.reserved_after(state, file_id, offset, length) == if bytes <= quota.limit {
                Ok(Reservation { bytes, pieces })
            } else {
                Err(QuotaError::LimitExceeded { limit: quota.limit })
            }
        }),
{
    let file_offset = quota.file_offsets@[file_id as int].0 as int;
    let size = quota.piece_length as int;
    let start = file_offset + offset;
    let last_byte = start + length - 1;
    let pieces = Set::new(
        |piece: u32|
            state.pieces.contains(piece) || writes_into(
                file_offset,
                offset as int,
                length as int,
                piece as int,
                size,
            ),
    );
    lemma_div_is_ordered(start, last_byte, size);
    vstd::arithmetic::div_mod::lemma_div_pos_is_pos(start, size);
    assert(last_byte / size <= u32::MAX) by (nonlinear_arith)
        requires
            0 <= last_byte < size * 0x1_0000_0000,
            size > 0,
    ;
    let (first, last) = (start / size, last_byte / size);
    assert forall|piece: u32| pieces.contains(piece) == with_pieces(
        state.pieces,
        first,
        last,
    ).contains(piece) by {
        lemma_writes_into(start, length as int, piece as int, size);
        assert forall|byte: int| #[trigger] lies_in(byte, piece as int, size) implies (file_offset
            + offset <= byte < file_offset + offset + length) == (start + 0 <= byte < start + 0
            + length) by {
        }
    }
    assert(pieces =~= with_pieces(state.pieces, first, last));
    quota.lemma_held_grows(state.pieces, first, last, u32::MAX + 1);
}

/// No pieces hold no bytes, and each further piece adds the bytes of the torrent that lie in it:
/// a whole piece length, or what is left of the torrent.
pub proof fn pieces_count_for_their_bytes(quota: QuotaStorage, pieces: Set<u32>, piece: u32)
    requires
        !pieces.contains(piece),
    ensures
        quota.held(Set::empty(), u32::MAX + 1) == 0,
        ({
            let more = quota.held(pieces.insert(piece), u32::MAX + 1) - quota.held(
                pieces,
                u32::MAX + 1,
            );
            let start = piece * quota.piece_length;
            &&& start + quota.piece_length <= quota.total_length ==> more == quota.piece_length
            &&& start <= quota.total_length < start + quota.piece_length ==> more
                == quota.total_length - start
            &&& quota.total_length <= start ==> more == 0
        }),
{
    quota.lemma_none_held(u32::MAX + 1);
    lemma_held_with(quota, pieces, piece, u32::MAX + 1);
}

proof fn lemma_held_with(quota: QuotaStorage, pieces: Set<u32>, piece: u32, to: int)
    requires
        !pieces.contains(piece),
        to <= u32::MAX + 1,
    ensures
        quota.held(pieces.insert(piece), to) == quota.held(pieces, to) + if piece < to {
            quota.piece_size(piece as int)
        } else {
            0
        },
    decreases to,
{
    if to > 0 {
        lemma_held_with(quota, pieces, piece, to - 1);
    }
}

/// A write of no bytes reserves nothing, one to a file that does not exist is refused, and so is
/// one that ends behind its file.
pub proof fn misplaced_writes_reserve_nothing(
    quota: QuotaStorage,
    state: Reservation,
    file_id: usize,
    offset: u64,
    length: usize,
)
    ensures
        length == 0 ==> quota.reserved_after(state, file_id, offset, length) == Ok::<
            Reservation,
            QuotaError,
        >(state),
        length > 0 && file_id >= quota.file_offsets@.len() ==> quota.reserved_after(
            state,
            file_id,
            offset,
            length,
        ) == Err::<Reservation, QuotaError>(QuotaError::UnknownFile),
        length > 0 && file_id < quota.file_offsets@.len() && offset + length <= u64::MAX && offset
            + length > quota.file_offsets@[file_id as int].1 ==> quota.reserved_after(
            state,
            file_id,
            offset,
            length,
        ) == Err::<Reservation, QuotaError>(QuotaError::BeyondFile),
{
}

/// A write whose place cannot be told with 64 bits, or whose pieces cannot be told with 32, is
/// refused for that.
pub proof fn unnumbered_writes_are_refused(
    quota: QuotaStorage,
    state: Reservation,
    file_id: usize,
    offset: u64,
    length: usize,
)
    requires
        length > 0,
        file_id < quota.file_offsets@.len(),
        quota.piece_length > 0,
    ensures
        ({
            let (file_offset, file_length) = quota.file_offsets@[file_id as int];
            let result = quota.reserved_after(state, file_id, offset, length);
            &&& offset + length > u64::MAX ==> result == Err::<Reservation, QuotaError>(
                QuotaError::OffsetOverflow,
            )
            &&& offset + length <= file_length && file_offset + offset > u64::MAX ==> result == Err::<
                Reservation,
                QuotaError,
            >(QuotaError::GlobalOffsetOverflow)
            &&& offset + length <= file_length && file_offset + offset <= u64::MAX && file_offset
                + offset + length > u64::MAX ==> result == Err::<Reservation, QuotaError>(
                QuotaError::GlobalRangeOverflow,
            )
            &&& offset + length <= file_length && file_offset + offset + length <= u64::MAX
                && file_offset + offset + length > quota.piece_length * 0x1_0000_0000 ==> result
                == Err::<Reservation, QuotaError>(QuotaError::TooManyPieces)
        }),
{
    let (file_offset, file_length) = quota.file_offsets@[file_id as int];
    let size = quota.piece_length as int;
    let last_byte = file_offset + offset + length - 1;
    if last_byte >= size * 0x1_0000_0000 {
        lemma_fundamental_div_mod(last_byte, size);
        lemma_mod_bound(last_byte, size);
        assert(last_byte / size > u32::MAX) by (nonlinear_arith)
            requires
                last_byte >= size * 0x1_0000_0000,
                last_byte == size * (last_byte / size) + last_byte % size,
                last_byte % size < size,
                size > 0,
        ;
    }
}

} // verus!
