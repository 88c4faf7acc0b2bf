use torrent_vlc::platform::{starts_with_drive, with_slashes, Platform};
use torrent_vlc::session::{
    accepts_metadata_key, sanitize_name, session_name, DestinationSearch, Ending, SessionGuard,
};

#[test]
fn names_are_made_safe() {
    assert_eq!(sanitize_name("My Show (2020)"), "My_Show__2020");
    assert_eq!(sanitize_name("../../etc/passwd"), "etc_passwd");
    assert_eq!(sanitize_name("...---___"), "");
    assert_eq!(sanitize_name("a.b-c_d"), "a.b-c_d");
    assert_eq!(sanitize_name("été"), "t");
    let long = sanitize_name(&"x".repeat(200));
    assert_eq!(long, "x".repeat(80));
    assert_eq!(sanitize_name(&format!("{}yz", "é".repeat(79))), "y");
}

#[test]
fn safe_names_are_left_alone() {
    for name in ["My Show (2020)", "", "a/b\\c", "-x-", "..é..", "x y"] {
        let safe = sanitize_name(name);
        assert_eq!(sanitize_name(&safe), safe);
        assert!(safe.len() <= 80);
    }
}

#[test]
fn metadata_keys_lead_downwards() {
    for platform in [Platform::MacOs, Platform::Windows, Platform::Other] {
        assert!(accepts_metadata_key("torrent.torrent", platform));
        assert!(accepts_metadata_key("nested/selection.json", platform));
    }
    for key in ["/etc/passwd", "../x", "a/../b", "./a", ".."] {
        for platform in [Platform::MacOs, Platform::Windows, Platform::Other] {
            assert!(!accepts_metadata_key(key, platform), "{key}");
        }
    }
    for key in ["..\\x", "a\\..\\b", "\\a", "C:a", "c:\\a", ".\\a"] {
        assert!(!accepts_metadata_key(key, Platform::Windows), "{key}");
        assert!(accepts_metadata_key(key, Platform::Other), "{key}");
    }
    assert!(accepts_metadata_key("a\\b", Platform::Windows));
}

#[test]
fn sessions_are_named_by_their_id() {
    assert_eq!(session_name("0123"), "session-0123");
}

#[test]
fn a_session_ends_once() {
    let mut guard = SessionGuard::create("path", 7u8);
    assert_eq!(guard.path(), &"path");
    assert!(!guard.is_finalized());
    assert!(matches!(guard.begin_ending(), Ending::Open(Some(7))));
    guard.finish_ending(true);
    assert!(guard.is_finalized());
    assert!(matches!(guard.begin_ending(), Ending::Finalized));
    assert_eq!(guard.abandon(), None);
}

#[test]
fn a_session_that_is_not_removed_is_tried_again() {
    let mut guard = SessionGuard::create("path", 7u8);
    assert!(matches!(guard.begin_ending(), Ending::Open(Some(7))));
    guard.finish_ending(false);
    assert_eq!(guard.path(), &"path");
    assert!(matches!(guard.begin_ending(), Ending::Open(None)));
    assert_eq!(guard.abandon(), Some(("path", None)));
    assert!(guard.is_finalized());
    let mut dropped = SessionGuard::create("other", 9u8);
    assert_eq!(dropped.abandon(), Some(("other", Some(9))));
}

#[test]
fn destinations_are_numbered() {
    let mut search = DestinationSearch::new("show");
    assert_eq!(search.candidate().unwrap(), "show");
    search.reject();
    assert_eq!(search.candidate().unwrap(), "show-1");
    search.reject();
    assert_eq!(search.candidate().unwrap(), "show-2");
    search.attempt = 9_999;
    assert_eq!(search.candidate().unwrap(), "show-9999");
    search.reject();
    assert_eq!(search.candidate(), None);
    assert_eq!(DestinationSearch::new("").candidate().unwrap(), "torrent");
}

#[test]
fn paths_of_windows_get_slashes() {
    assert_eq!(with_slashes("a\\b/c.mkv", Platform::Windows), "a/b/c.mkv");
    assert_eq!(with_slashes("a\\b/c.mkv", Platform::Other), "a\\b/c.mkv");
    assert!(starts_with_drive("C:x", Platform::Windows));
    assert!(!starts_with_drive("1:x", Platform::Windows));
    assert!(!starts_with_drive("C", Platform::Windows));
    assert!(!starts_with_drive("C:x", Platform::MacOs));
}
