//! How a request for the stream of a file is answered.

use crate::numbers::{decimal, decimal_text};
use crate::paths::{
    endings_are_extensions, extension, extension_of, hidden_names_have_no_extension,
};
use crate::stream::ranges::{
    closed_header, closed_ranges_are_read, open_header, open_ranges_are_read, parse_range, plan_of,
    plan_range, plans_stay_inside, requested_range, suffix_header, suffix_ranges_are_read,
    ByteRange, RangeError, RangePlan,
};
use crate::stream::transfer::{
    bytes_read, transfers_move_what_was_asked, Progress, ReadEvent, Transfer,
};
use crate::text::{chars_of, same_text, string_of};
use crate::torrent::layout::{TorrentFile, TorrentLayout};
use vstd::prelude::*;
use vstd::utf8::encode_utf8;

verus! {

/// The media type that is guessed from the extension of a file.
pub uninterp spec fn media_type(extension: Seq<char>) -> Seq<char>;

/// Calls `mime_guess::from_ext` and renders the first guess, or the type of a stream of octets
/// if there is none. The claim is that the result is determined by the extension, and that an
/// empty extension gives the type of a stream of octets. Which types other extensions give is
/// left to the crate's table.
#[verifier::external_body]
fn guess_media_type(extension: &str) -> (res: String)
    ensures
        res@ == media_type(extension@),
        extension@.len() == 0 ==> res@ == "application/octet-stream"@,
{
    mime_guess::from_ext(extension).first_or_octet_stream().to_string()
}

/// The content type of a file, which is guessed from the extension of its path.
pub open spec fn content_type_of(path: Seq<char>) -> Seq<char> {
    match extension(path) {
        Some(extension) => media_type(extension),
        None => "application/octet-stream"@,
    }
}

/// The content type of a file, which is guessed from the extension of its path.
pub fn content_type(path: &str) -> (res: String)
    ensures
        res@ == content_type_of(path@),
{
    match extension_of(&chars_of(path)) {
        Some(extension) => guess_media_type(string_of(&extension).as_str()),
        None => {
            proof {
                reveal_strlit("");
            }
            guess_media_type("")
        },
    }
}

/// The status of a response.
#[derive(Clone, Copy, Debug, PartialEq, Eq, Structural)]
pub enum Status {
    Success,
    PartialContent,
    NotFound,
    RangeNotSatisfiable,
    InternalServerError,
    ServiceUnavailable,
}

impl Status {
    /// The number of the status.
    pub open spec fn number(self) -> u16 {
        match self {
            Status::Success => 200,
            Status::PartialContent => 206,
            Status::NotFound => 404,
            Status::RangeNotSatisfiable => 416,
            Status::InternalServerError => 500,
            Status::ServiceUnavailable => 503,
        }
    }

    /// The number of the status.
    pub fn code(self) -> (res: u16)
        ensures
            res == self.number(),
    {
        match self {
            Status::Success => 200,
            Status::PartialContent => 206,
            Status::NotFound => 404,
            Status::RangeNotSatisfiable => 416,
            Status::InternalServerError => 500,
            Status::ServiceUnavailable => 503,
        }
    }
}

/// The name of a header field of a response.
#[derive(Clone, Copy, Debug, PartialEq, Eq, Structural)]
pub enum Field {
    AcceptRanges,
    ContentLength,
    ContentRange,
    ContentType,
}

/// The status and the header fields of a response.
#[derive(Debug, PartialEq, Eq)]
pub struct Head {
    pub status: Status,
    pub fields: Vec<(Field, String)>,
}

/// The status and the header fields of a response, with their values as text.
#[verifier::ext_equal]
pub struct HeadView {
    pub status: Status,
    pub fields: Seq<(Field, Seq<char>)>,
}

impl View for Head {
    type V = HeadView;

    open spec fn view(&self) -> HeadView {
        HeadView {
            status: self.status,
            fields: self.fields@.map_values(|field: (Field, String)| (field.0, field.1@)),
        }
    }
}

/// A response whose body is known at once.
#[derive(Debug, PartialEq, Eq)]
pub struct Reply {
    pub head: Head,
    pub body: String,
}

/// A response to a request for the stream.
#[derive(Debug, PartialEq, Eq)]
pub enum Answer {
    /// This response, and nothing else.
    Reply(Reply),
    /// A head that is followed by the bytes of a range of the file.
    Stream { head: Head, range: ByteRange, plan: RangePlan },
}

/// A response to a request for the stream, with text for its strings.
#[verifier::ext_equal]
pub enum AnswerView {
    Reply { head: HeadView, body: Seq<char> },
    Stream { head: HeadView, range: ByteRange, plan: RangePlan },
}

impl View for Reply {
    type V = AnswerView;

    open spec fn view(&self) -> AnswerView {
        AnswerView::Reply { head: self.head@, body: self.body@ }
    }
}

impl View for Answer {
    type V = AnswerView;

    open spec fn view(&self) -> AnswerView {
        match self {
            Answer::Reply(reply) => reply@,
            Answer::Stream { head, range, plan } => AnswerView::Stream {
                head: head@,
                range: *range,
                plan: *plan,
            },
        }
    }
}

/// What a request says of the range that it asks for.
#[derive(Clone, Copy, Debug)]
pub enum RangeHeader<'a> {
    /// There is no such header.
    Absent,
    /// The value of the header is not text.
    Unreadable,
    /// The value of the header.
    Text(&'a str),
}

/// What a request says of the range that it asks for, with text for its string.
pub enum RangeHeaderView {
    Absent,
    Unreadable,
    Text(Seq<char>),
}

impl<'a> View for RangeHeader<'a> {
    type V = RangeHeaderView;

    open spec fn view(&self) -> RangeHeaderView {
        match self {
            RangeHeader::Absent => RangeHeaderView::Absent,
            RangeHeader::Unreadable => RangeHeaderView::Unreadable,
            RangeHeader::Text(text) => RangeHeaderView::Text(text@),
        }
    }
}

/// The response to a request that is refused with a message.
pub open spec fn plain_error_of(status: Status, message: Seq<char>) -> AnswerView {
    AnswerView::Reply {
        head: HeadView {
            status,
            fields: seq![
                (Field::ContentType, "text/plain; charset=utf-8"@),
                (Field::ContentLength, decimal(encode_utf8(message).len())),
            ],
        },
        body: message,
    }
}

/// The response to a request for a range that a file of `total_length` bytes does not have.
pub open spec fn range_not_satisfiable_of(total_length: u64) -> AnswerView {
    AnswerView::Reply {
        head: HeadView {
            status: Status::RangeNotSatisfiable,
            fields: seq![
                (Field::AcceptRanges, "bytes"@),
                (Field::ContentRange, "bytes */"@ + decimal(total_length as nat)),
                (Field::ContentLength, "0"@),
            ],
        },
        body: Seq::empty(),
    }
}

/// The head of a response that carries a range of a file; `partial` if the range was asked for.
pub open spec fn range_head(file: TorrentFile, range: ByteRange, partial: bool) -> HeadView {
    let fields = seq![
        (Field::AcceptRanges, "bytes"@),
        (Field::ContentLength, decimal(range.size() as nat)),
        (Field::ContentType, content_type_of(file.path@)),
    ];
    if partial {
        HeadView {
            status: Status::PartialContent,
            fields: fields.push(
                (
                    Field::ContentRange,
                    "bytes "@ + decimal(range.start as nat) + "-"@ + decimal(
                        range.end_inclusive as nat,
                    ) + "/"@ + decimal(file.length as nat),
                ),
            ),
        }
    } else {
        HeadView { status: Status::Success, fields }
    }
}

/// The whole of a file.
pub open spec fn whole_file(file: TorrentFile) -> ByteRange {
    ByteRange { start: 0, end_inclusive: (file.length - 1) as u64 }
}

/// The response that carries a range of a file.
pub open spec fn range_answer(
    layout: TorrentLayout,
    file: TorrentFile,
    range: ByteRange,
    partial: bool,
    head_only: bool,
) -> AnswerView {
    match plan_of(layout, file.file_id, range) {
        Err(_) => plain_error_of(Status::InternalServerError, "unable to map stream range"@),
        Ok(plan) => if head_only {
            AnswerView::Reply { head: range_head(file, range, partial), body: Seq::empty() }
        } else {
            AnswerView::Stream { head: range_head(file, range, partial), range, plan }
        },
    }
}

/// The response to a request for the stream of a file.
pub open spec fn answer_of(
    layout: TorrentLayout,
    file: TorrentFile,
    token: Seq<char>,
    requested_token: Seq<char>,
    head_only: bool,
    range_header: RangeHeaderView,
) -> AnswerView {
    if requested_token != token {
        plain_error_of(Status::NotFound, "not found"@)
    } else {
        match range_header {
            RangeHeaderView::Unreadable => range_not_satisfiable_of(file.length),
            RangeHeaderView::Absent => range_answer(
                layout,
                file,
                whole_file(file),
                false,
                head_only,
            ),
            RangeHeaderView::Text(text) => match requested_range(text, file.length) {
                Err(_) => range_not_satisfiable_of(file.length),
                Ok(range) => range_answer(layout, file, range, true, head_only),
            },
        }
    }
}

/// Refuses a request with a message.
pub fn plain_error(status: Status, message: &str) -> (res: Reply)
    ensures
        res@ == plain_error_of(status, message@),
{
    let mut fields: Vec<(Field, String)> = Vec::new();
    fields.push((Field::ContentType, "text/plain; charset=utf-8".to_owned()));
    fields.push((Field::ContentLength, decimal_text(message.as_bytes().len() as u64)));
    let res = Reply { head: Head { status, fields }, body: message.to_owned() };
    assert(res.head@.fields == seq![
        (Field::ContentType, "text/plain; charset=utf-8"@),
        (Field::ContentLength, decimal(encode_utf8(message@).len())),
    ]);
    res
}

/// Refuses a request for a range that a file of `total_length` bytes does not have.
pub fn range_not_satisfiable(total_length: u64) -> (res: Reply)
    ensures
        res@ == range_not_satisfiable_of(total_length),
{
    let mut sizes = "bytes */".to_owned();
    sizes.append(decimal_text(total_length).as_str());
    let mut fields: Vec<(Field, String)> = Vec::new();
    fields.push((Field::AcceptRanges, "bytes".to_owned()));
    fields.push((Field::ContentRange, sizes));
    fields.push((Field::ContentLength, "0".to_owned()));
    let res = Reply {
        head: Head { status: Status::RangeNotSatisfiable, fields },
        body: String::new(),
    };
    assert(res.head@.fields == seq![
        (Field::AcceptRanges, "bytes"@),
        (Field::ContentRange, "bytes */"@ + decimal(total_length as nat)),
        (Field::ContentLength, "0"@),
    ]);
    res
}

/// The head of a response that carries a range of a file.
fn head_for_range(file: &TorrentFile, range: ByteRange, partial: bool) -> (res: Head)
    requires
        range.measurable(),
    ensures
        res@ == range_head(*file, range, partial),
{
    let mut fields: Vec<(Field, String)> = Vec::new();
    fields.push((Field::AcceptRanges, "bytes".to_owned()));
    fields.push((Field::ContentLength, decimal_text(range.len())));
    fields.push((Field::ContentType, content_type(file.path.as_str())));
    if partial {
        let mut place = "bytes ".to_owned();
        place.append(decimal_text(range.start).as_str());
        place.append("-");
        place.append(decimal_text(range.end_inclusive).as_str());
        place.append("/");
        place.append(decimal_text(file.length).as_str());
        fields.push((Field::ContentRange, place));
        let res = Head { status: Status::PartialContent, fields };
        assert(res@.fields == range_head(*file, range, partial).fields);
        res
    } else {
        let res = Head { status: Status::Success, fields };
        assert(res@.fields == range_head(*file, range, partial).fields);
        res
    }
}

/// Answers a request for the stream of a file. A wrong token is not found, a range that the file
/// does not have is refused, and otherwise the response carries the range, or the whole file if
/// no range is asked for. The body is left out if only the head is asked for.
pub fn answer(
    layout: &TorrentLayout,
    file: &TorrentFile,
    token: &str,
    requested_token: &str,
    head_only: bool,
    range_header: RangeHeader,
) -> (res: Answer)
    requires
        requested_token@ == token@ && range_header@ is Absent ==> file.length > 0,
    ensures
        res@ == answer_of(*layout, *file, token@, requested_token@, head_only, range_header@),
{
    if !same_text(requested_token, token) {
        return Answer::Reply(plain_error(Status::NotFound, "not found"));
    }
    let header: Option<&str> = match range_header {
        RangeHeader::Absent => None,
        RangeHeader::Unreadable => {
            return Answer::Reply(range_not_satisfiable(file.length));
        },
        RangeHeader::Text(text) => Some(text),
    };
    let range: ByteRange = match parse_range(header, file.length) {
        Ok(Some(range)) => range,
        Ok(None) => ByteRange { start: 0, end_inclusive: file.length - 1 },
        Err(_) => {
            return Answer::Reply(range_not_satisfiable(file.length));
        },
    };
    let plan: RangePlan = match plan_range(layout, file.file_id, range) {
        Ok(plan) => plan,
        Err(_) => {
            return Answer::Reply(
                plain_error(Status::InternalServerError, "unable to map stream range"),
            );
        },
    };
    let head: Head = head_for_range(file, range, header.is_some());
    if head_only {
        Answer::Reply(Reply { head, body: String::new() })
    } else {
        Answer::Stream { head, range, plan }
    }
}

/// Why the stream of a file is not opened.
#[derive(Clone, Copy, Debug, PartialEq, Eq, Structural)]
pub enum OpenFault {
    /// The server is shutting down.
    ShuttingDown,
    /// The torrent gives no stream.
    Unavailable,
    /// The stream cannot be moved to the start of the range.
    SeekFailed,
}

impl OpenFault {
    /// Whether the torrent cannot be streamed any more.
    pub open spec fn is_fatal(self) -> bool {
        !(self is ShuttingDown)
    }

    /// What the player is told.
    pub open spec fn message_text(self) -> Seq<char> {
        match self {
            OpenFault::ShuttingDown => "stream is shutting down"@,
            OpenFault::Unavailable => "torrent stream unavailable"@,
            OpenFault::SeekFailed => "torrent stream seek failed"@,
        }
    }

    /// Whether the torrent cannot be streamed any more.
    pub fn fatal(self) -> (res: bool)
        ensures
            res == self.is_fatal(),
    {
        match self {
            OpenFault::ShuttingDown => false,
            OpenFault::Unavailable | OpenFault::SeekFailed => true,
        }
    }

    /// The response to a request whose stream is not opened.
    pub fn reply(self) -> (res: Reply)
        ensures
            res@ == plain_error_of(Status::ServiceUnavailable, self.message_text()),
    {
        let message: &'static str = match self {
            OpenFault::ShuttingDown => "stream is shutting down",
            OpenFault::Unavailable => "torrent stream unavailable",
            OpenFault::SeekFailed => "torrent stream seek failed",
        };
        plain_error(Status::ServiceUnavailable, message)
    }
}

/// The transfer of the bytes that follow the head of a response.
pub fn body_transfer(range: ByteRange) -> (res: Transfer)
    requires
        range.measurable(),
    ensures
        res == (Transfer { total: range.size() as u64, moved: 0 }),
        res.valid(),
{
    Transfer::new(range.len())
}

/// The error that ends a body.
pub open spec fn body_error_text(progress: Progress) -> Option<Seq<char>> {
    match progress {
        Progress::Stalled => Some("torrent piece read stalled"@),
        Progress::Ended => Some("torrent file ended before requested range"@),
        _ => None,
    }
}

/// The text of the error that ends a body, where the torrent gives none of its own.
pub fn body_error(progress: Progress) -> (res: Option<&'static str>)
    ensures
        match res {
            Some(text) => body_error_text(progress) == Some(text@),
            None => body_error_text(progress) is None,
        },
{
    match progress {
        Progress::Stalled => Some("torrent piece read stalled"),
        Progress::Ended => Some("torrent file ended before requested range"),
        _ => None,
    }
}

/// The address of the stream, given the address of the server.
pub fn stream_url(address: &str, token: &str) -> (res: String)
    ensures
        res@ == "http://"@ + address@ + "/"@ + token@ + "/stream"@,
{
    let mut res = "http://".to_owned();
    res.append(address);
    res.append("/");
    res.append(token);
    res.append("/stream");
    res
}

/// Whether a file lies inside its torrent: it is the one with its id, it ends before the torrent
/// does, and the pieces of the torrent can be numbered.
pub open spec fn well_placed(layout: TorrentLayout, file: TorrentFile) -> bool {
    &&& layout.file_of(file.file_id) == Some(file)
    &&& file.torrent_offset + file.length <= layout.total_length
    &&& 0 < layout.piece_length
    &&& layout.total_length <= layout.piece_length * 0x1_0000_0000
}

/// A request with a wrong token is not found, whatever it asks for.
pub proof fn wrong_tokens_are_not_found(
    layout: TorrentLayout,
    file: TorrentFile,
    token: Seq<char>,
    requested_token: Seq<char>,
    head_only: bool,
    range_header: RangeHeaderView,
)
    requires
        requested_token != token,
    ensures
        answer_of(layout, file, token, requested_token, head_only, range_header) == plain_error_of(
            Status::NotFound,
            "not found"@,
        ),
{
}

/// A request for the head alone is answered with the head of the response with the body.
pub proof fn heads_are_those_of_the_stream(
    layout: TorrentLayout,
    file: TorrentFile,
    token: Seq<char>,
    requested_token: Seq<char>,
    range_header: RangeHeaderView,
)
    ensures
        match answer_of(layout, file, token, requested_token, false, range_header) {
            AnswerView::Reply { head, body } => answer_of(
                layout,
                file,
                token,
                requested_token,
                true,
                range_header,
            ) == (AnswerView::Reply { head, body }),
            AnswerView::Stream { head, .. } => answer_of(
                layout,
                file,
                token,
                requested_token,
                true,
                range_header,
            ) == (AnswerView::Reply { head, body: Seq::empty() }),
        },
{
}

/// A range of a well-placed file has a plan.
proof fn lemma_planned(layout: TorrentLayout, file: TorrentFile, range: ByteRange)
    requires
        well_placed(layout, file),
        range.start <= range.end_inclusive < file.length,
    ensures
        plan_of(layout, file.file_id, range) matches Ok(plan) && plan.file_range == range,
{
    let end = file.torrent_offset + range.end_inclusive;
    let piece_length = layout.piece_length as int;
    assert(end / piece_length <= u32::MAX) by (nonlinear_arith)
        requires
            0 <= end < piece_length * 0x1_0000_0000,
            piece_length > 0,
    ;
}

/// A range that a file has is served, with exactly that range as its body.
pub proof fn satisfiable_ranges_are_served(
    layout: TorrentLayout,
    file: TorrentFile,
    token: Seq<char>,
    text: Seq<char>,
    range: ByteRange,
)
    requires
        well_placed(layout, file),
        requested_range(text, file.length) == Ok::<ByteRange, RangeError>(range),
    ensures
        answer_of(layout, file, token, token, false, RangeHeaderView::Text(text)) == (
        AnswerView::Stream {
            head: range_head(file, range, true),
            range,
            plan: plan_of(layout, file.file_id, range)->Ok_0,
        }),
        range.start <= range.end_inclusive < file.length,
{
    lemma_planned(layout, file, range);
}

/// Without a range, the whole of a file that has bytes is served.
pub proof fn whole_files_are_served(layout: TorrentLayout, file: TorrentFile, token: Seq<char>)
    requires
        well_placed(layout, file),
        file.length > 0,
    ensures
        answer_of(layout, file, token, token, false, RangeHeaderView::Absent) == (
        AnswerView::Stream {
            head: range_head(file, whole_file(file), false),
            range: whole_file(file),
            plan: plan_of(layout, file.file_id, whole_file(file))->Ok_0,
        }),
        whole_file(file).size() == file.length,
{
    lemma_planned(layout, file, whole_file(file));
}

/// A range that a file does not have is refused, and the response tells the length of the file.
pub proof fn unsatisfiable_ranges_are_refused(
    layout: TorrentLayout,
    file: TorrentFile,
    token: Seq<char>,
    head_only: bool,
    text: Seq<char>,
)
    requires
        requested_range(text, file.length) is Err,
    ensures
        answer_of(layout, file, token, token, head_only, RangeHeaderView::Text(text))
            == range_not_satisfiable_of(file.length),
{
}

/// The body of a response that is sent to its end has the length that its head announces.
pub proof fn bodies_are_as_long_as_announced(
    layout: TorrentLayout,
    file: TorrentFile,
    token: Seq<char>,
    requested_token: Seq<char>,
    range_header: RangeHeaderView,
    events: Seq<ReadEvent>,
)
    requires
        range_header is Absent ==> file.length > 0,
        answer_of(layout, file, token, requested_token, false, range_header) matches
            AnswerView::Stream { range, .. } ==> (Transfer {
            total: range.size() as u64,
            moved: 0,
        }).ends_by(events),
    ensures
        answer_of(layout, file, token, requested_token, false, range_header) matches
            AnswerView::Stream { head, range, .. } ==> {
            let start = Transfer { total: range.size() as u64, moved: 0 };
            &&& range.measurable()
            &&& start.outcome(events) is Complete ==> head.fields.contains(
                (Field::ContentLength, decimal(bytes_read(events) as nat)),
            )
        },
{
    if let AnswerView::Stream { head, range, .. } = answer_of(
        layout,
        file,
        token,
        requested_token,
        false,
        range_header,
    ) {
        transfers_move_what_was_asked(Transfer { total: range.size() as u64, moved: 0 }, events);
        assert(head.fields[1] == (Field::ContentLength, decimal(range.size() as nat)));
    }
}

/// Whether a header field stands exactly once among the given ones, with the given value.
pub open spec fn tells_once(
    fields: Seq<(Field, Seq<char>)>,
    name: Field,
    value: Seq<char>,
) -> bool {
    exists|i: int|
        0 <= i < fields.len() && #[trigger] fields[i] == (name, value) && forall|j: int|
            0 <= j < fields.len() && j != i ==> (#[trigger] fields[j]).0 != name
}

/// Whether a header field does not stand among the given ones.
pub open spec fn leaves_out(fields: Seq<(Field, Seq<char>)>, name: Field) -> bool {
    forall|j: int| 0 <= j < fields.len() ==> (#[trigger] fields[j]).0 != name
}

/// The head of the response to a satisfiable range tells once, and rightly, which bytes of the
/// file follow, how many they are, what they are, and that ranges are accepted. The bytes that
/// follow are the ones that were asked for, all of them in the file.
pub proof fn partial_answers_tell_their_range(
    layout: TorrentLayout,
    file: TorrentFile,
    token: Seq<char>,
    text: Seq<char>,
)
    requires
        well_placed(layout, file),
        requested_range(text, file.length) is Ok,
    ensures
        answer_of(layout, file, token, token, false, RangeHeaderView::Text(text)) matches
            AnswerView::Stream { head, range, plan } && {
            let (a, b, n) = (range.start as nat, range.end_inclusive as nat, file.length as nat);
            &&& requested_range(text, file.length) == Ok::<ByteRange, RangeError>(range)
            &&& a <= b < n
            &&& head.status.number() == 206
            &&& tells_once(
                head.fields,
                Field::ContentRange,
                "bytes "@ + decimal(a) + "-"@ + decimal(b) + "/"@ + decimal(n),
            )
            &&& tells_once(head.fields, Field::ContentLength, decimal((b - a + 1) as nat))
            &&& tells_once(head.fields, Field::AcceptRanges, "bytes"@)
            &&& tells_once(head.fields, Field::ContentType, content_type_of(file.path@))
            &&& plan.file_id == file.file_id
            &&& plan.file_range == range
            &&& plan.torrent_range.start == file.torrent_offset + a
            &&& plan.torrent_range.end_exclusive == file.torrent_offset + b + 1
        },
{
    let range = requested_range(text, file.length)->Ok_0;
    lemma_planned(layout, file, range);
    plans_stay_inside(layout, file.file_id, range);
    let fields = range_head(file, range, true).fields;
    assert(fields[0].0 == Field::AcceptRanges);
    assert(fields[1] == (Field::ContentLength, decimal((range.end_inclusive - range.start + 1) as nat)));
    assert(fields[2] == (Field::ContentType, content_type_of(file.path@)));
    assert(fields[3] == (
        Field::ContentRange,
        "bytes "@ + decimal(range.start as nat) + "-"@ + decimal(range.end_inclusive as nat) + "/"@
            + decimal(file.length as nat),
    ));
    assert(fields.len() == 4);
}

/// The head of the response without a range tells once, and rightly, how many bytes follow, what
/// they are, and that ranges are accepted, but no range. All bytes of the file follow.
pub proof fn whole_answers_tell_no_range(
    layout: TorrentLayout,
    file: TorrentFile,
    token: Seq<char>,
)
    requires
        well_placed(layout, file),
        file.length > 0,
    ensures
        answer_of(layout, file, token, token, false, RangeHeaderView::Absent) matches
            AnswerView::Stream { head, range, plan } && {
            &&& range.start == 0
            &&& range.end_inclusive == file.length - 1
            &&& head.status.number() == 200
            &&& leaves_out(head.fields, Field::ContentRange)
            &&& tells_once(head.fields, Field::ContentLength, decimal(file.length as nat))
            &&& tells_once(head.fields, Field::AcceptRanges, "bytes"@)
            &&& tells_once(head.fields, Field::ContentType, content_type_of(file.path@))
            &&& plan.file_id == file.file_id
            &&& plan.file_range == range
            &&& plan.torrent_range.start == file.torrent_offset
            &&& plan.torrent_range.end_exclusive == file.torrent_offset + file.length
        },
{
    let range = whole_file(file);
    lemma_planned(layout, file, range);
    plans_stay_inside(layout, file.file_id, range);
    let fields = range_head(file, range, false).fields;
    assert(fields[0].0 == Field::AcceptRanges);
    assert(fields[1] == (Field::ContentLength, decimal(file.length as nat)));
    assert(fields[2].0 == Field::ContentType);
    assert(fields.len() == 3);
}

/// What a player asks for with a closed, an open or a suffix range is what it gets.
pub proof fn players_get_what_they_ask_for(
    layout: TorrentLayout,
    file: TorrentFile,
    token: Seq<char>,
    a: u64,
    b: u64,
)
    requires
        well_placed(layout, file),
        a <= b < file.length,
    ensures
        answer_of(layout, file, token, token, false, RangeHeaderView::Text(closed_header(a, b)))
            matches AnswerView::Stream { range, .. } && range.start == a && range.end_inclusive
            == b,
        answer_of(layout, file, token, token, false, RangeHeaderView::Text(open_header(a))) matches
            AnswerView::Stream { range, .. } && range.start == a && range.end_inclusive
            == file.length - 1,
        a > 0 ==> (answer_of(
            layout,
            file,
            token,
            token,
            false,
            RangeHeaderView::Text(suffix_header(a)),
        ) matches AnswerView::Stream { range, .. } && range.start == file.length - a
            && range.end_inclusive == file.length - 1),
{
    closed_ranges_are_read(a, b, file.length);
    open_ranges_are_read(a, file.length);
    partial_answers_tell_their_range(layout, file, token, closed_header(a, b));
    partial_answers_tell_their_range(layout, file, token, open_header(a));
    if a > 0 {
        suffix_ranges_are_read(a, file.length);
        partial_answers_tell_their_range(layout, file, token, suffix_header(a));
    }
}

/// Whether a response has the given status, and a message with its length in bytes and its type.
pub open spec fn is_message(answer: AnswerView, status: int, message: Seq<char>) -> bool {
    answer matches AnswerView::Reply { head, body } && {
        &&& head.status.number() == status
        &&& body == message
        &&& tells_once(head.fields, Field::ContentLength, decimal(encode_utf8(message).len()))
        &&& tells_once(head.fields, Field::ContentType, "text/plain; charset=utf-8"@)
        &&& leaves_out(head.fields, Field::ContentRange)
        &&& leaves_out(head.fields, Field::AcceptRanges)
    }
}

proof fn lemma_message(status: Status, message: Seq<char>)
    ensures
        is_message(plain_error_of(status, message), status.number() as int, message),
{
    let fields = seq![
        (Field::ContentType, "text/plain; charset=utf-8"@),
        (Field::ContentLength, decimal(encode_utf8(message).len())),
    ];
    assert(fields[0].0 == Field::ContentType && fields[1].0 == Field::ContentLength);
    assert(plain_error_of(status, message) matches AnswerView::Reply { head, .. } && head.fields
        == fields);
}

/// With a wrong token every request is answered with status 404 and a message that tells nothing
/// of the file. With the right one no request is.
pub proof fn only_wrong_tokens_are_not_found(
    layout: TorrentLayout,
    file: TorrentFile,
    token: Seq<char>,
    requested_token: Seq<char>,
    head_only: bool,
    range_header: RangeHeaderView,
)
    ensures
        requested_token != token ==> is_message(
            answer_of(layout, file, token, requested_token, head_only, range_header),
            404,
            "not found"@,
        ),
        requested_token == token ==> match answer_of(
            layout,
            file,
            token,
            requested_token,
            head_only,
            range_header,
        ) {
            AnswerView::Reply { head, .. } => head.status.number() != 404,
            AnswerView::Stream { head, .. } => head.status.number() != 404,
        },
{
    lemma_message(Status::NotFound, "not found"@);
}

/// A header that cannot be read, or that asks for a range that the file does not have, is answered
/// with status 416, the length of the file, and no body.
pub proof fn refused_ranges_tell_the_length(
    layout: TorrentLayout,
    file: TorrentFile,
    token: Seq<char>,
    head_only: bool,
    range_header: RangeHeaderView,
)
    requires
        range_header is Unreadable || (range_header matches RangeHeaderView::Text(text)
            && requested_range(text, file.length) is Err),
    ensures
        answer_of(layout, file, token, token, head_only, range_header) matches
            AnswerView::Reply { head, body } && {
            &&& head.status.number() == 416
            &&& body.len() == 0
            &&& tells_once(
                head.fields,
                Field::ContentRange,
                "bytes */"@ + decimal(file.length as nat),
            )
            &&& tells_once(head.fields, Field::ContentLength, "0"@)
            &&& tells_once(head.fields, Field::AcceptRanges, "bytes"@)
            &&& leaves_out(head.fields, Field::ContentType)
        },
{
    let fields = seq![
        (Field::AcceptRanges, "bytes"@),
        (Field::ContentRange, "bytes */"@ + decimal(file.length as nat)),
        (Field::ContentLength, "0"@),
    ];
    assert(fields[0].0 == Field::AcceptRanges);
    assert(fields[1].0 == Field::ContentRange);
    assert(fields[2].0 == Field::ContentLength);
    assert(range_not_satisfiable_of(file.length) matches AnswerView::Reply { head, .. }
        && head.fields == fields);
}

/// A range that has no place in the torrent is answered with status 500 and a message.
pub proof fn unmapped_ranges_are_server_errors(
    layout: TorrentLayout,
    file: TorrentFile,
    token: Seq<char>,
    head_only: bool,
    text: Seq<char>,
)
    requires
        requested_range(text, file.length) matches Ok(range) && file.torrent_offset
            + range.end_inclusive >= layout.total_length,
        layout.file_of(file.file_id) == Some(file),
    ensures
        is_message(
            answer_of(layout, file, token, token, head_only, RangeHeaderView::Text(text)),
            500,
            "unable to map stream range"@,
        ),
{
    let range = requested_range(text, file.length)->Ok_0;
    assert(range.start <= range.end_inclusive < file.length);
    if plan_of(layout, file.file_id, range) is Ok {
        plans_stay_inside(layout, file.file_id, range);
    }
    lemma_message(Status::InternalServerError, "unable to map stream range"@);
}

/// A file whose name ends with a dot and an extension has the media type of that extension,
/// wherever it lies.
pub proof fn extensions_decide_about_the_type(
    directory: Seq<char>,
    stem: Seq<char>,
    ending: Seq<char>,
)
    requires
        stem.len() > 0,
        !stem.contains('/'),
        !ending.contains('/') && !ending.contains('.'),
        ending.len() > 0,
    ensures
        content_type_of(stem + seq!['.'] + ending) == media_type(ending),
        content_type_of(directory + seq!['/'] + stem + seq!['.'] + ending) == media_type(ending),
{
    endings_are_extensions(directory, stem, ending);
}

/// A stream that cannot be opened is answered with status 503, and only a server that is shutting
/// down is no fault of the torrent.
pub proof fn only_shutting_down_is_harmless(fault: OpenFault)
    ensures
        is_message(
            plain_error_of(Status::ServiceUnavailable, fault.message_text()),
            503,
            fault.message_text(),
        ),
        fault.is_fatal() <==> fault == OpenFault::Unavailable || fault == OpenFault::SeekFailed,
        fault == OpenFault::ShuttingDown ==> fault.message_text() == "stream is shutting down"@,
        fault == OpenFault::Unavailable ==> fault.message_text() == "torrent stream unavailable"@,
        fault == OpenFault::SeekFailed ==> fault.message_text() == "torrent stream seek failed"@,
{
    lemma_message(Status::ServiceUnavailable, fault.message_text());
}

/// A file without an extension has the type of a stream of octets.
pub proof fn plain_files_are_streams_of_octets(directory: Seq<char>, name: Seq<char>)
    requires
        name.len() > 0,
        !name.contains('/') && !name.contains('.'),
    ensures
        content_type_of(name) == "application/octet-stream"@,
        content_type_of(directory + seq!['/'] + name) == "application/octet-stream"@,
{
    reveal_strlit(".");
    reveal_strlit("..");
    assert forall|i: int| 0 <= i < name.len() implies #[trigger] name[i] != '.' by {
        assert(name.contains(name[i]));
    }
    assert("."@[0] == '.' && ".."@[0] == '.');
    hidden_names_have_no_extension(directory, name);
}

} // verus!
