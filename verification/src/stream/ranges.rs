//! Byte ranges of a file: reading them from a request header and mapping them to pieces.

use crate::numbers::{all_digits, decimal, decimal_round_trip, lemma_decimal, parse_u64, unsigned};
use crate::text::{
    chars_of, has_prefix, is_digit, is_white_space, leading, lemma_leading, lemma_leading_is,
    lemma_strip, lemma_strip_fixed, part, run_end, trim, trimmed, trimming_takes_white_space_off,
    CharSet,
};
use crate::torrent::layout::{pieces_cover_the_range, GlobalRange, LayoutError, TorrentLayout};
use vstd::prelude::*;

verus! {

/// A range of bytes of a file, both ends included.
#[derive(Clone, Copy, Debug, PartialEq, Eq)]
pub struct ByteRange {
    pub start: u64,
    pub end_inclusive: u64,
}

/// A byte range of a file together with the bytes of the torrent and the pieces that hold it.
#[derive(Clone, Copy, Debug, PartialEq, Eq)]
pub struct RangePlan {
    pub file_id: usize,
    pub file_range: ByteRange,
    pub torrent_range: GlobalRange,
    pub first_piece: u32,
    pub last_piece: u32,
}

/// Why the value of a range header is refused.
#[derive(Clone, Copy, Debug, PartialEq, Eq)]
pub enum RangeError {
    /// A file without bytes has no satisfiable range.
    EmptyFile,
    /// The unit is not bytes.
    NotBytes,
    /// More than one range is asked for.
    Multiple,
    /// There is no dash.
    Malformed,
    /// The length of a suffix is not a number.
    InvalidSuffix,
    /// The suffix has length zero.
    ZeroSuffix,
    /// The start is not a number.
    InvalidStart,
    /// The start lies behind the end of the file.
    StartOutside,
    /// The end is not a number.
    InvalidEnd,
    /// The end precedes the start.
    EndBeforeStart,
}

impl ByteRange {
    /// The number of bytes in the range.
    pub open spec fn size(self) -> int {
        self.end_inclusive - self.start + 1
    }

    /// Whether the range holds at least one byte and its size fits in 64 bits.
    pub open spec fn measurable(self) -> bool {
        1 <= self.size() <= u64::MAX
    }

    /// The number of bytes in the range.
    pub fn len(self) -> (res: u64)
        requires
            self.measurable(),
        ensures
            res == self.size(),
    {
        self.end_inclusive - self.start + 1
    }

    /// Whether the range holds no byte.
    pub fn is_empty(self) -> (res: bool)
        ensures
            res == (self.start > self.end_inclusive),
    {
        self.start > self.end_inclusive
    }
}

/// The plan for a byte range of a file: its place in the torrent and its pieces.
pub open spec fn plan_of(layout: TorrentLayout, file_id: usize, range: ByteRange) -> Result<
    RangePlan,
    LayoutError,
> {
    match layout.file_piece_range_of(file_id, range.start, range.size() as u64) {
        Err(error) => Err(error),
        Ok(pieces) => Ok(
            RangePlan {
                file_id,
                file_range: range,
                torrent_range: layout.global_range_of(
                    file_id,
                    range.start,
                    range.size() as u64,
                )->Ok_0->Some_0,
                first_piece: pieces->Some_0.0,
                last_piece: pieces->Some_0.1,
            },
        ),
    }
}

/// Maps a byte range of a file to the bytes and pieces of the torrent that hold it.
pub fn plan_range(layout: &TorrentLayout, file_id: usize, range: ByteRange) -> (res: Result<
    RangePlan,
    LayoutError,
>)
    requires
        range.measurable(),
    ensures
        res == plan_of(*layout, file_id, range),
{
    let torrent_range: GlobalRange = match layout.global_range(file_id, range.start, range.len()) {
        Ok(Some(torrent_range)) => torrent_range,
        Ok(None) => vstd::pervasive::unreached(),
        Err(error) => {
            return Err(error);
        },
    };
    match layout.piece_range(torrent_range) {
        Ok(Some((first_piece, last_piece))) => Ok(
            RangePlan { file_id, file_range: range, torrent_range, first_piece, last_piece },
        ),
        Ok(None) => vstd::pervasive::unreached(),
        Err(error) => Err(error),
    }
}

/// The range that is meant by the two parts around the dash of a range value.
pub open spec fn bounded_range(start: Seq<char>, end: Seq<char>, total_length: u64) -> Result<
    ByteRange,
    RangeError,
> {
    let last = (total_length - 1) as u64;
    if start.len() == 0 {
        match unsigned(trim(end), u64::MAX as nat) {
            None => Err(RangeError::InvalidSuffix),
            Some(suffix) => if suffix == 0 {
                Err(RangeError::ZeroSuffix)
            } else if suffix < total_length {
                Ok(ByteRange { start: (total_length - suffix) as u64, end_inclusive: last })
            } else {
                Ok(ByteRange { start: 0, end_inclusive: last })
            },
        }
    } else {
        match unsigned(trim(start), u64::MAX as nat) {
            None => Err(RangeError::InvalidStart),
            Some(first) => if first >= total_length {
                Err(RangeError::StartOutside)
            } else if trim(end).len() == 0 {
                Ok(ByteRange { start: first as u64, end_inclusive: last })
            } else {
                match unsigned(trim(end), u64::MAX as nat) {
                    None => Err(RangeError::InvalidEnd),
                    Some(requested) => if requested < first {
                        Err(RangeError::EndBeforeStart)
                    } else if requested < last {
                        Ok(ByteRange { start: first as u64, end_inclusive: requested as u64 })
                    } else {
                        Ok(ByteRange { start: first as u64, end_inclusive: last })
                    },
                }
            },
        }
    }
}

/// The range of a file of `total_length` bytes that the value of a range header asks for:
/// `bytes=`, a start, a dash and an end, of which the start (for a suffix) or the end may be
/// missing.
pub open spec fn requested_range(header: Seq<char>, total_length: u64) -> Result<
    ByteRange,
    RangeError,
> {
    if total_length == 0 {
        Err(RangeError::EmptyFile)
    } else if !("bytes="@.is_prefix_of(trim(header))) {
        Err(RangeError::NotBytes)
    } else {
        let rest = trim(header).skip("bytes="@.len() as int);
        let value = trim(rest);
        let dash = leading(value, CharSet::Except('-')) as int;
        if rest.contains(',') {
            Err(RangeError::Multiple)
        } else if dash == value.len() {
            Err(RangeError::Malformed)
        } else {
            bounded_range(value.take(dash), value.skip(dash + 1), total_length)
        }
    }
}

/// Reads the value of a range header for a file of `total_length` bytes. Without a header there
/// is no range.
pub fn parse_range(header: Option<&str>, total_length: u64) -> (res: Result<
    Option<ByteRange>,
    RangeError,
>)
    ensures
        match header {
            None => res == Ok::<Option<ByteRange>, RangeError>(None),
            Some(header) => match requested_range(header@, total_length) {
                Ok(range) => res == Ok::<Option<ByteRange>, RangeError>(Some(range)) && range.start
                    <= range.end_inclusive < total_length,
                Err(error) => res == Err::<Option<ByteRange>, RangeError>(error),
            },
        },
{
    let header: &str = match header {
        Some(header) => header,
        None => {
            return Ok(None);
        },
    };
    if total_length == 0 {
        return Err(RangeError::EmptyFile);
    }
    let trimmed_header: Vec<char> = trimmed(&chars_of(header));
    let unit: Vec<char> = chars_of("bytes=");
    if !has_prefix(&trimmed_header, &unit) {
        return Err(RangeError::NotBytes);
    }
    let rest: Vec<char> = part(&trimmed_header, unit.len(), trimmed_header.len());
    assert(rest@ == trim(header@).skip("bytes="@.len() as int));
    let comma: usize = run_end(&rest, 0, CharSet::Except(','));
    proof {
        assert(rest@.skip(0) == rest@);
        lemma_leading(rest@, CharSet::Except(','));
    }
    if comma < rest.len() {
        assert(rest@[comma as int] == ',');
        return Err(RangeError::Multiple);
    }
    assert(!rest@.contains(','));
    let value: Vec<char> = trimmed(&rest);
    let dash: usize = run_end(&value, 0, CharSet::Except('-'));
    assert(value@.skip(0) == value@);
    if dash == value.len() {
        return Err(RangeError::Malformed);
    }
    let start: Vec<char> = part(&value, 0, dash);
    let end: Vec<char> = part(&value, dash + 1, value.len());
    assert(start@ == value@.take(dash as int));
    assert(end@ == value@.skip(dash + 1));
    let end: Vec<char> = trimmed(&end);
    if start.len() == 0 {
        let suffix: u64 = match parse_u64(&end) {
            Some(suffix) => suffix,
            None => {
                return Err(RangeError::InvalidSuffix);
            },
        };
        if suffix == 0 {
            return Err(RangeError::ZeroSuffix);
        }
        let length: u64 = if suffix < total_length {
            suffix
        } else {
            total_length
        };
        return Ok(
            Some(ByteRange { start: total_length - length, end_inclusive: total_length - 1 }),
        );
    }
    let start: u64 = match parse_u64(&trimmed(&start)) {
        Some(start) => start,
        None => {
            return Err(RangeError::InvalidStart);
        },
    };
    if start >= total_length {
        return Err(RangeError::StartOutside);
    }
    let end_inclusive: u64 = if end.len() == 0 {
        total_length - 1
    } else {
        let requested: u64 = match parse_u64(&end) {
            Some(requested) => requested,
            None => {
                return Err(RangeError::InvalidEnd);
            },
        };
        if requested < start {
            return Err(RangeError::EndBeforeStart);
        }
        if requested < total_length - 1 {
            requested
        } else {
            total_length - 1
        }
    };
    Ok(Some(ByteRange { start, end_inclusive }))
}

/// The value of a range header that asks for the bytes from `start` to `end`.
pub open spec fn closed_header(start: u64, end: u64) -> Seq<char> {
    "bytes="@ + decimal(start as nat) + seq!['-'] + decimal(end as nat)
}

/// The value of a range header that asks for the bytes from `start` on.
pub open spec fn open_header(start: u64) -> Seq<char> {
    "bytes="@ + decimal(start as nat) + seq!['-']
}

/// The value of a range header that asks for the last `suffix` bytes.
pub open spec fn suffix_header(suffix: u64) -> Seq<char> {
    "bytes="@ + seq!['-'] + decimal(suffix as nat)
}

/// Digits around a dash are read as the two parts of a range.
proof fn lemma_plain_header(start: Seq<char>, end: Seq<char>, total_length: u64)
    requires
        total_length > 0,
        all_digits(start),
        all_digits(end),
    ensures
        requested_range("bytes="@ + start + seq!['-'] + end, total_length) == bounded_range(
            start,
            end,
            total_length,
        ),
        trim(start) == start,
        trim(end) == end,
{
    reveal_strlit("bytes=");
    let unit = "bytes="@;
    let rest = start + seq!['-'] + end;
    let header = unit + start + seq!['-'] + end;
    assert(header == unit + rest);
    assert forall|i: int| 0 <= i < rest.len() implies (is_digit(#[trigger] rest[i]) || rest[i]
        == '-') && !is_white_space(rest[i]) by {
        if i < start.len() {
            assert(rest[i] == start[i]);
        } else if i > start.len() {
            assert(rest[i] == end[i - start.len() - 1]);
        }
    }
    assert(header.last() == rest.last());
    lemma_strip_fixed(header, CharSet::WhiteSpace);
    assert(unit =~= header.subrange(0, unit.len() as int));
    assert(header.skip(unit.len() as int) == rest);
    assert(!rest.contains(',')) by {
        if rest.contains(',') {
            let i = choose|i: int| 0 <= i < rest.len() && rest[i] == ',';
            assert(is_digit(rest[i]) || rest[i] == '-');
        }
    }
    lemma_strip_fixed(rest, CharSet::WhiteSpace);
    assert forall|i: int| 0 <= i < start.len() implies CharSet::Except('-').has(
        #[trigger] rest[i],
    ) by {
        assert(rest[i] == start[i]);
    }
    assert(rest[start.len() as int] == '-');
    lemma_leading_is(rest, CharSet::Except('-'), start.len());
    assert(rest.take(start.len() as int) == start);
    assert(rest.skip(start.len() as int + 1) == end);
    if start.len() > 0 {
        assert(is_digit(start[0]) && is_digit(start.last()));
    }
    if end.len() > 0 {
        assert(is_digit(end[0]) && is_digit(end.last()));
    }
    lemma_strip_fixed(start, CharSet::WhiteSpace);
    lemma_strip_fixed(end, CharSet::WhiteSpace);
}

/// A closed range asks for the bytes from its start to its end, or to the end of the file if
/// that comes first.
pub proof fn closed_ranges_are_read(start: u64, end: u64, total_length: u64)
    requires
        start <= end,
        start < total_length,
    ensures
        requested_range(closed_header(start, end), total_length) == Ok::<ByteRange, RangeError>(
            ByteRange {
                start,
                end_inclusive: if end < total_length {
                    end
                } else {
                    (total_length - 1) as u64
                },
            },
        ),
{
    lemma_decimal(start as nat);
    lemma_decimal(end as nat);
    lemma_plain_header(decimal(start as nat), decimal(end as nat), total_length);
    decimal_round_trip(start as nat, u64::MAX as nat);
    decimal_round_trip(end as nat, u64::MAX as nat);
}

/// An open range asks for the bytes from its start to the end of the file.
pub proof fn open_ranges_are_read(start: u64, total_length: u64)
    requires
        start < total_length,
    ensures
        requested_range(open_header(start), total_length) == Ok::<ByteRange, RangeError>(
            ByteRange { start, end_inclusive: (total_length - 1) as u64 },
        ),
{
    let none = Seq::<char>::empty();
    lemma_decimal(start as nat);
    lemma_plain_header(decimal(start as nat), none, total_length);
    decimal_round_trip(start as nat, u64::MAX as nat);
    assert(open_header(start) == open_header(start) + none);
}

/// A suffix range asks for that many bytes at the end of the file, or for all of them if the
/// file is shorter.
pub proof fn suffix_ranges_are_read(suffix: u64, total_length: u64)
    requires
        suffix > 0,
        total_length > 0,
    ensures
        requested_range(suffix_header(suffix), total_length) == Ok::<ByteRange, RangeError>(
            ByteRange {
                start: if suffix < total_length {
                    (total_length - suffix) as u64
                } else {
                    0
                },
                end_inclusive: (total_length - 1) as u64,
            },
        ),
{
    let none = Seq::<char>::empty();
    lemma_decimal(suffix as nat);
    lemma_plain_header(none, decimal(suffix as nat), total_length);
    decimal_round_trip(suffix as nat, u64::MAX as nat);
    assert("bytes="@ + none == "bytes="@);
}

/// A range that starts behind the end of the file is refused, whatever end it asks for.
pub proof fn ranges_behind_the_file_are_refused(start: u64, end: u64, total_length: u64)
    requires
        total_length > 0,
        start >= total_length,
    ensures
        requested_range(closed_header(start, end), total_length) == Err::<ByteRange, RangeError>(
            RangeError::StartOutside,
        ),
        requested_range(open_header(start), total_length) == Err::<ByteRange, RangeError>(
            RangeError::StartOutside,
        ),
{
    let none = Seq::<char>::empty();
    lemma_decimal(start as nat);
    lemma_decimal(end as nat);
    lemma_plain_header(decimal(start as nat), decimal(end as nat), total_length);
    lemma_plain_header(decimal(start as nat), none, total_length);
    decimal_round_trip(start as nat, u64::MAX as nat);
    assert(open_header(start) == open_header(start) + none);
}

/// A planned range lies within its file and the torrent, and its pieces are those of its first
/// and last byte.
pub proof fn plans_stay_inside(layout: TorrentLayout, file_id: usize, range: ByteRange)
    requires
        range.measurable(),
        plan_of(layout, file_id, range) is Ok,
    ensures
        ({
            let plan = plan_of(layout, file_id, range)->Ok_0;
            let file = layout.file_of(file_id)->Some_0;
            &&& layout.file_of(file_id) is Some
            &&& plan.file_id == file_id && plan.file_range == range
            &&& range.end_inclusive < file.length
            &&& plan.torrent_range.start == file.torrent_offset + range.start
            &&& plan.torrent_range.end_exclusive == file.torrent_offset + range.end_inclusive + 1
            &&& plan.torrent_range.end_exclusive <= layout.total_length
            &&& layout.piece_length > 0
            &&& plan.first_piece == (file.torrent_offset + range.start)
                / layout.piece_length as int
            &&& plan.last_piece == (file.torrent_offset + range.end_inclusive)
                / layout.piece_length as int
            &&& plan.first_piece <= plan.last_piece
        }),
{
    pieces_cover_the_range(
        layout,
        file_id,
        range.start,
        range.size() as u64,
        0,
    );
}

/// A range is accepted only for a file with bytes, for the unit of bytes, and for a single range,
/// and lies in the file.
pub proof fn accepted_ranges_lie_in_the_file(header: Seq<char>, total_length: u64)
    ensures
        requested_range(header, total_length) matches Ok(range) ==> {
            &&& range.start <= range.end_inclusive < total_length
            &&& "bytes="@.is_prefix_of(trim(header))
            &&& !trim(header).skip("bytes="@.len() as int).contains(',')
            &&& trim(header).skip("bytes="@.len() as int).contains('-')
        },
        total_length == 0 ==> requested_range(header, total_length) is Err,
{
    if requested_range(header, total_length) is Ok {
        let rest = trim(header).skip("bytes="@.len() as int);
        let value = trim(rest);
        let dash = leading(value, CharSet::Except('-')) as int;
        lemma_leading(value, CharSet::Except('-'));
        lemma_strip(rest, CharSet::WhiteSpace);
        assert(value[dash] == '-');
        assert(rest[leading(rest, CharSet::WhiteSpace) + dash] == '-');
    }
}

/// A range that ends before it starts is refused, and so is the last zero bytes of a file.
pub proof fn empty_ranges_are_refused(start: u64, end: u64, total_length: u64)
    requires
        end < start < total_length,
    ensures
        requested_range(closed_header(start, end), total_length) == Err::<ByteRange, RangeError>(
            RangeError::EndBeforeStart,
        ),
        requested_range(suffix_header(0), total_length) == Err::<ByteRange, RangeError>(
            RangeError::ZeroSuffix,
        ),
{
    let none = Seq::<char>::empty();
    lemma_decimal(start as nat);
    lemma_decimal(end as nat);
    lemma_decimal(0);
    lemma_plain_header(decimal(start as nat), decimal(end as nat), total_length);
    lemma_plain_header(none, decimal(0), total_length);
    decimal_round_trip(start as nat, u64::MAX as nat);
    decimal_round_trip(end as nat, u64::MAX as nat);
    decimal_round_trip(0, u64::MAX as nat);
    assert("bytes="@ + none == "bytes="@);
}

/// White space around the value of a header makes no difference.
pub proof fn white_space_around_headers_is_ignored(
    before: Seq<char>,
    header: Seq<char>,
    after: Seq<char>,
    total_length: u64,
)
    requires
        forall|i: int| 0 <= i < before.len() ==> is_white_space(#[trigger] before[i]),
        forall|i: int| 0 <= i < after.len() ==> is_white_space(#[trigger] after[i]),
        header.len() > 0 ==> !is_white_space(header[0]) && !is_white_space(header.last()),
    ensures
        requested_range(before + header + after, total_length) == requested_range(
            header,
            total_length,
        ),
{
    trimming_takes_white_space_off(before + header + after, before, header, after);
    lemma_strip_fixed(header, CharSet::WhiteSpace);
}

/// The size of a range is the number of its bytes: a range of one byte has size one, and each
/// further byte adds one.
pub proof fn ranges_count_their_bytes(start: u64, end: u64)
    requires
        start <= end,
    ensures
        (ByteRange { start, end_inclusive: start }).size() == 1,
        end < u64::MAX ==> (ByteRange { start, end_inclusive: (end + 1) as u64 }).size()
            == (ByteRange { start, end_inclusive: end }).size() + 1,
        (ByteRange { start, end_inclusive: end }).measurable() <==> end - start < u64::MAX,
{
}

} // verus!
