use torrent_vlc::session::recovery::{
    clock_seconds, decide, describe, examine, is_older_than, now_unix_seconds, probed_process,
    process_is_alive, Probe, SessionMetadata, Verdict,
};
use torrent_vlc::size::TimeSpan;

fn metadata(temporary: bool) -> SessionMetadata {
    SessionMetadata {
        session_id: "live".to_owned(),
        pid: 42,
        created_at: 1,
        temporary,
    }
}

fn span(secs: u64, nanos: u32) -> TimeSpan {
    TimeSpan { secs, nanos }
}

#[test]
fn sessions_of_live_processes_are_left() {
    for probe in [Probe::Delivered, Probe::Forbidden] {
        let verdict = examine(true, Some(&metadata(true)), probe, Some(span(u64::MAX, 0)));
        assert_eq!(verdict, Verdict::Leave);
        assert!(!decide(verdict, true, true));
    }
    let kept = examine(true, Some(&metadata(false)), Probe::Failed, None);
    assert_eq!(kept, Verdict::Leave);
}

#[test]
fn sessions_of_dead_processes_are_removed_under_their_lock() {
    let verdict = examine(true, Some(&metadata(true)), Probe::Failed, None);
    assert_eq!(verdict, Verdict::Claim { readable: true });
    assert!(decide(verdict, true, true));
    assert!(!decide(verdict, true, false));
    assert!(!decide(verdict, false, false));
    assert_eq!(
        examine(false, Some(&metadata(true)), Probe::Failed, None),
        Verdict::Leave
    );
}

#[test]
fn unreadable_sessions_are_removed_after_a_day() {
    let judge = |elapsed| examine(true, None, Probe::Failed, elapsed);
    assert_eq!(judge(Some(span(86_400, 0))), Verdict::Claim { readable: false });
    assert_eq!(judge(Some(span(86_399, 999_999_999))), Verdict::Leave);
    assert_eq!(judge(None), Verdict::Leave);
}

#[test]
fn ages_are_compared_to_the_nanosecond() {
    assert!(is_older_than(Some(span(5, 7)), span(5, 7)));
    assert!(is_older_than(Some(span(6, 0)), span(5, 7)));
    assert!(!is_older_than(Some(span(5, 6)), span(5, 7)));
    assert!(!is_older_than(None, span(0, 0)));
}

#[test]
fn processes_are_asked_for_by_their_number() {
    assert_eq!(probed_process(0), None);
    assert_eq!(probed_process(1), Some(1));
    assert_eq!(probed_process(i32::MAX as u32), Some(i32::MAX));
    assert_eq!(probed_process(1 << 31), Some(i32::MIN));
    assert_eq!(probed_process(u32::MAX), Some(-1));
    assert!(!process_is_alive(0, Probe::Delivered));
    assert!(process_is_alive(1, Probe::Forbidden));
    assert!(!process_is_alive(1, Probe::Failed));
}

#[test]
fn the_clock_is_read_in_seconds() {
    assert_eq!(clock_seconds(Some(span(17, 999_999_999))), 17);
    assert_eq!(clock_seconds(None), 0);
    let now = std::time::SystemTime::now()
        .duration_since(std::time::UNIX_EPOCH)
        .unwrap()
        .as_secs();
    let read = now_unix_seconds();
    assert!(now <= read && read <= now + 5);
}

#[test]
fn new_sessions_are_temporary() {
    assert_eq!(
        describe("id".to_owned(), 3, 4),
        SessionMetadata {
            session_id: "id".to_owned(),
            pid: 3,
            created_at: 4,
            temporary: true
        }
    );
}
