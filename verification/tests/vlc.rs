use std::path::PathBuf;
use torrent_vlc::platform::Platform;
use torrent_vlc::player::vlc::{
    default_vlc_candidates, find_on_path, resolve_vlc_path, validate_vlc_path, vlc_arguments, Base,
    Candidate, Place, VlcError,
};

fn place(path: &str, is_file: bool) -> Place<PathBuf> {
    Place { path: PathBuf::from(path), is_file }
}

#[test]
fn rejects_a_missing_explicit_vlc_executable() {
    let path = PathBuf::from("missing-vlc-executable");
    let place = Place { is_file: path.is_file(), path };
    let candidates: Vec<Candidate<PathBuf>> = Vec::new();
    let error = resolve_vlc_path(Some(&place), &candidates).unwrap_err();
    let error = error.message(&place.path.display().to_string());

    assert!(error.contains("VLC executable does not exist"));
    assert_eq!(error, "VLC executable does not exist: missing-vlc-executable");
}

#[test]
fn accepts_an_existing_explicit_executable() {
    let explicit = place("/opt/vlc", true);
    let candidates: Vec<Candidate<PathBuf>> = Vec::new();
    assert_eq!(resolve_vlc_path(Some(&explicit), &candidates), Ok(&PathBuf::from("/opt/vlc")));
    assert_eq!(validate_vlc_path(Some(&explicit), &candidates), Ok(()));
}

fn absolute(path: &str, is_file: bool) -> Candidate<PathBuf> {
    Candidate { place: place(path, is_file), is_absolute: true, on_path: Vec::new() }
}

fn relative(places: Vec<Place<PathBuf>>) -> Candidate<PathBuf> {
    Candidate { place: place("vlc", true), is_absolute: false, on_path: places }
}

#[test]
fn the_first_candidate_that_exists_is_taken() {
    let places = vec![place("/bin/vlc", false), place("/games/vlc", true), place("/x/vlc", true)];
    assert_eq!(find_on_path(&places), Some(&PathBuf::from("/games/vlc")));
    let candidates = vec![absolute("/a/vlc", false), relative(places), absolute("/b/vlc", true)];
    assert_eq!(resolve_vlc_path(None, &candidates), Ok(&PathBuf::from("/games/vlc")));
    let candidates = vec![absolute("/a/vlc", false), absolute("/b/vlc", true)];
    assert_eq!(resolve_vlc_path(None, &candidates), Ok(&PathBuf::from("/b/vlc")));
}

#[test]
fn nothing_is_found_where_nothing_exists() {
    let candidates = vec![relative(vec![place("/bin/vlc", false)]), absolute("/a/vlc", false)];
    let error = validate_vlc_path(None, &candidates).unwrap_err();
    assert_eq!(error, VlcError::NotFound);
    assert_eq!(error.message(""), "VLC was not found; install VLC or pass --vlc-path");
}

#[test]
fn every_platform_has_its_executables() {
    assert_eq!(
        default_vlc_candidates(Platform::Other),
        [
            (Base::Unset, "vlc"),
            (Base::Unset, "/usr/bin/vlc"),
            (Base::Unset, "/usr/local/bin/vlc")
        ]
    );
    let windows = default_vlc_candidates(Platform::Windows);
    assert_eq!(windows.len(), 5);
    assert_eq!(windows[3], (Base::LocalAppData, "Programs/VideoLAN/VLC/vlc.exe"));
    let mac = default_vlc_candidates(Platform::MacOs);
    assert_eq!(mac[1], (Base::Home, "Applications/VLC.app/Contents/MacOS/VLC"));
    assert_eq!(Base::Home.variable(), Some("HOME"));
    assert_eq!(Base::ProgramFiles.variable(), Some("ProgramFiles"));
    assert_eq!(Base::ProgramFilesX86.variable(), Some("ProgramFiles(x86)"));
    assert_eq!(Base::LocalAppData.variable(), Some("LOCALAPPDATA"));
    assert_eq!(Base::Unset.variable(), None);
}

#[test]
fn vlc_runs_in_an_instance_of_its_own() {
    assert_eq!(vlc_arguments("http://x"), ["--no-one-instance", "http://x"]);
}
