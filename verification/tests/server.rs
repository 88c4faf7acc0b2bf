use torrent_vlc::stream::ranges::ByteRange;
use torrent_vlc::stream::server::{
    answer, body_error, body_transfer, content_type, plain_error, range_not_satisfiable,
    stream_url, Answer, Field, Head, OpenFault, RangeHeader, Reply, Status,
};
use torrent_vlc::stream::transfer::{Progress, ReadEvent, Transfer, CHUNK_SIZE};
use torrent_vlc::torrent::layout::{TorrentFile, TorrentLayout};

fn media() -> TorrentFile {
    TorrentFile {
        file_id: 1,
        path: "01-fixture.mkv".to_owned(),
        length: 8192,
        torrent_offset: 37,
        padding: false,
    }
}

fn layout() -> TorrentLayout {
    let prefix = TorrentFile {
        file_id: 0,
        path: "00-prefix.bin".to_owned(),
        length: 37,
        torrent_offset: 0,
        padding: false,
    };
    TorrentLayout { piece_length: 1024, total_length: 8229, files: vec![prefix, media()] }
}

fn field(head: &Head, wanted: Field) -> Option<String> {
    head.fields
        .iter()
        .find(|(name, _)| *name == wanted)
        .map(|(_, value)| value.clone())
}

fn ask(head_only: bool, header: RangeHeader) -> Answer {
    answer(&layout(), &media(), "secret", "secret", head_only, header)
}

fn reply(answer: Answer) -> Reply {
    match answer {
        Answer::Reply(reply) => reply,
        Answer::Stream { .. } => panic!("unexpected stream"),
    }
}

#[test]
fn ranges_are_answered_with_partial_content() {
    match ask(false, RangeHeader::Text("bytes=500-1700")) {
        Answer::Stream { head, range, plan } => {
            assert_eq!(head.status, Status::PartialContent);
            assert_eq!(head.status.code(), 206);
            assert_eq!(field(&head, Field::ContentRange).unwrap(), "bytes 500-1700/8192");
            assert_eq!(field(&head, Field::ContentLength).unwrap(), "1201");
            assert_eq!(field(&head, Field::AcceptRanges).unwrap(), "bytes");
            assert_eq!(field(&head, Field::ContentType).unwrap(), content_type("01-fixture.mkv"));
            assert_eq!(range, ByteRange { start: 500, end_inclusive: 1700 });
            assert_eq!((plan.first_piece, plan.last_piece), (0, 1));
            assert_eq!((plan.torrent_range.start, plan.torrent_range.end_exclusive), (537, 1738));
        }
        Answer::Reply(_) => panic!("no stream"),
    }
}

#[test]
fn heads_are_answered_without_a_body() {
    let head_reply = reply(ask(true, RangeHeader::Text("bytes=500-1700")));
    assert_eq!(head_reply.body, "");
    assert_eq!(head_reply.head.status, Status::PartialContent);
    assert_eq!(field(&head_reply.head, Field::ContentLength).unwrap(), "1201");
    match ask(false, RangeHeader::Text("bytes=500-1700")) {
        Answer::Stream { head, .. } => assert_eq!(head, head_reply.head),
        Answer::Reply(_) => panic!("no stream"),
    }
}

#[test]
fn whole_files_are_answered_with_success() {
    match ask(false, RangeHeader::Absent) {
        Answer::Stream { head, range, .. } => {
            assert_eq!(head.status.code(), 200);
            assert_eq!(head.fields.len(), 3);
            assert_eq!(field(&head, Field::ContentLength).unwrap(), "8192");
            assert_eq!(field(&head, Field::ContentRange), None);
            assert_eq!(range, ByteRange { start: 0, end_inclusive: 8191 });
        }
        Answer::Reply(_) => panic!("no stream"),
    }
}

#[test]
fn unsatisfiable_ranges_tell_the_length() {
    for header in [RangeHeader::Text("bytes=99999-"), RangeHeader::Unreadable] {
        let refused = reply(ask(false, header));
        assert_eq!(refused, range_not_satisfiable(8192));
        assert_eq!(refused.head.status.code(), 416);
        assert_eq!(field(&refused.head, Field::ContentRange).unwrap(), "bytes */8192");
        assert_eq!(field(&refused.head, Field::ContentLength).unwrap(), "0");
        assert_eq!(field(&refused.head, Field::AcceptRanges).unwrap(), "bytes");
        assert_eq!(refused.body, "");
    }
}

#[test]
fn wrong_tokens_and_unmapped_ranges_are_refused() {
    let missing = answer(&layout(), &media(), "secret", "Secret", false, RangeHeader::Absent);
    let missing = reply(missing);
    assert_eq!(missing, plain_error(Status::NotFound, "not found"));
    assert_eq!(missing.head.status.code(), 404);
    let mut short = layout();
    short.total_length = 100;
    let unmapped = reply(answer(&short, &media(), "t", "t", true, RangeHeader::Absent));
    assert_eq!(unmapped.head.status.code(), 500);
    assert_eq!(unmapped.body, "unable to map stream range");
}

#[test]
fn messages_are_measured_in_bytes() {
    let plain = plain_error(Status::NotFound, "ünïcode");
    assert_eq!(field(&plain.head, Field::ContentLength).unwrap(), "9");
    assert_eq!(field(&plain.head, Field::ContentType).unwrap(), "text/plain; charset=utf-8");
    assert_eq!(plain.body, "ünïcode");
}

#[test]
fn content_types_are_guessed_from_extensions() {
    let guess = |path: &str| mime_guess::from_path(path).first_or_octet_stream().to_string();
    for path in [
        "a.mkv", "b/c.MP4", "d.webm", "e.tar.gz", "noextension", ".hidden", "x.unknownext", "é.avi",
        "f.txt", "dir.mp4/file", "",
    ] {
        assert_eq!(content_type(path), guess(path), "{path}");
    }
    assert_eq!(content_type("a.mp4"), "video/mp4");
    assert_eq!(content_type("a"), "application/octet-stream");
}

#[test]
fn streams_that_do_not_open_are_unavailable() {
    let cases = [
        (OpenFault::ShuttingDown, false, "stream is shutting down"),
        (OpenFault::Unavailable, true, "torrent stream unavailable"),
        (OpenFault::SeekFailed, true, "torrent stream seek failed"),
    ];
    for (fault, fatal, message) in cases {
        assert_eq!(fault.fatal(), fatal);
        assert_eq!(fault.reply(), plain_error(Status::ServiceUnavailable, message));
        assert_eq!(fault.reply().head.status.code(), 503);
    }
}

#[test]
fn bodies_are_read_in_chunks() {
    let mut transfer = body_transfer(ByteRange { start: 7, end_inclusive: 6 + 2_500_000 });
    let mut sent: u64 = 0;
    let mut sizes: Vec<usize> = Vec::new();
    loop {
        let wanted = transfer.wanted();
        sizes.push(wanted);
        sent += wanted as u64;
        match transfer.advance(ReadEvent::Data(wanted)) {
            Progress::More => {}
            progress => {
                assert_eq!(progress, Progress::Complete);
                break;
            }
        }
    }
    assert_eq!(sizes, [CHUNK_SIZE, CHUNK_SIZE, 2_500_000 - 2 * CHUNK_SIZE]);
    assert_eq!(sent, 2_500_000);
    assert_eq!(transfer.wanted(), 0);
}

#[test]
fn bodies_end_early_for_a_reason() {
    let cases = [
        (ReadEvent::Data(0), Progress::Ended, true, Some("torrent file ended before requested range")),
        (ReadEvent::Stalled, Progress::Stalled, true, Some("torrent piece read stalled")),
        (ReadEvent::Failed, Progress::Failed, true, None),
        (ReadEvent::Cancelled, Progress::Cancelled, false, None),
    ];
    for (event, expected, fault, message) in cases {
        let mut transfer = Transfer::new(10);
        assert_eq!(transfer.advance(ReadEvent::Data(4)), Progress::More);
        assert_eq!(transfer.advance(event), expected);
        assert_eq!(transfer, Transfer { total: 10, moved: 4 });
        assert_eq!(expected.fault(), fault);
        assert_eq!(body_error(expected), message);
    }
}

#[test]
fn stream_addresses_carry_the_token() {
    assert_eq!(stream_url("127.0.0.1:8080", "abc"), "http://127.0.0.1:8080/abc/stream");
}
