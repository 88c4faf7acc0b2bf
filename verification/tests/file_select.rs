use std::cmp::Ordering;
use torrent_vlc::file_select::{
    inspect_files, is_playable_path, playable_files, select_answer, select_file,
    selection_question, FileReport, SelectError,
};
use torrent_vlc::natural::natural_cmp;
use torrent_vlc::torrent::layout::TorrentFile;

fn file(path: &str) -> TorrentFile {
    TorrentFile {
        file_id: 0,
        path: path.into(),
        length: 10,
        torrent_offset: 0,
        padding: false,
    }
}

#[test]
fn filters_and_naturally_sorts_media() {
    let input = vec![
        file("Episode 10.mkv"),
        file("notes.txt"),
        file("Episode 2.mkv"),
        file("Episode 3.MP4"),
    ];
    let result = playable_files(&input);
    assert_eq!(
        result
            .iter()
            .map(|file| file.path.as_str())
            .collect::<Vec<_>>(),
        ["Episode 2.mkv", "Episode 3.MP4", "Episode 10.mkv"]
    );
}

#[test]
fn selects_by_index_or_name() {
    let files = playable_files(&[file("one.mkv"), file("two.mkv")]);
    assert_eq!(select_file(&files, Some("2")).unwrap().unwrap().path, "two.mkv");
    assert_eq!(
        select_file(&files, Some("one.mkv")).unwrap().unwrap().path,
        "one.mkv"
    );
}

#[test]
fn padding_and_empty_files_are_not_played() {
    let mut padding = file("a.mkv");
    padding.padding = true;
    let mut empty = file("b.mkv");
    empty.length = 0;
    assert!(playable_files(&[padding, empty]).is_empty());
    for extension in ["mkv", "mp4", "webm", "avi", "mov", "m4v", "ts", "M2TS"] {
        assert!(is_playable_path(&format!("dir/x.{extension}")));
    }
    for path in ["mkv", ".mkv", "x.mkv/", "x.mkv/y", "x.mkv.part", "x.", ""] {
        assert_eq!(is_playable_path(path), path == "x.mkv/", "{path}");
    }
}

#[test]
fn equal_names_keep_their_order() {
    let mut first = file("Show 01.mkv");
    first.file_id = 1;
    let mut second = file("show 1.MKV");
    second.file_id = 2;
    let listed = playable_files(&[first.clone(), second.clone()]);
    assert_eq!(listed.iter().map(|file| file.file_id).collect::<Vec<_>>(), [1, 2]);
    let turned = playable_files(&[second, first]);
    assert_eq!(turned.iter().map(|file| file.file_id).collect::<Vec<_>>(), [2, 1]);
}

#[test]
fn numbers_are_compared_by_value() {
    let ordered = [
        "", "0", "1", "2", "10", "99999999999999999999999", "a", "a1", "a1b", "a2", "a10", "b",
    ];
    for (i, left) in ordered.iter().enumerate() {
        for (j, right) in ordered.iter().enumerate() {
            assert_eq!(natural_cmp(left, right), i.cmp(&j), "{left} {right}");
        }
    }
    assert_eq!(natural_cmp("A01", "a1"), Ordering::Equal);
    assert_eq!(natural_cmp("a-1", "a1"), Ordering::Less);
    assert_eq!(natural_cmp("a1", "a_"), Ordering::Less);
    assert_eq!(natural_cmp("a00b", "a0a"), Ordering::Greater);
}

#[test]
fn selection_names_its_errors() {
    let files = [file("d/one.mkv"), file("two.mkv"), file("e/one.mkv")];
    assert_eq!(select_file(&[], None), Err(SelectError::NoPlayableFiles));
    assert_eq!(select_file(&[], Some("1")), Err(SelectError::NoPlayableFiles));
    assert_eq!(
        select_file(&files, Some("0")),
        Err(SelectError::IndexOutside { index: 0, count: 3 })
    );
    assert_eq!(
        select_file(&files, Some("4")),
        Err(SelectError::IndexOutside { index: 4, count: 3 })
    );
    assert_eq!(select_file(&files, Some(" 1")), Err(SelectError::NotFound));
    assert_eq!(select_file(&files, Some("one")), Err(SelectError::NotFound));
    assert_eq!(select_file(&files, Some("+2")).unwrap().unwrap().path, "two.mkv");
    assert_eq!(select_file(&files, Some("one.mkv")).unwrap().unwrap().path, "d/one.mkv");
    assert_eq!(select_file(&files, Some("e/one.mkv")).unwrap().unwrap().path, "e/one.mkv");
    assert_eq!(select_file(&files, None), Ok(None));
    assert_eq!(select_file(&files[1..2], None).unwrap().unwrap().path, "two.mkv");
}

#[test]
fn exact_paths_come_before_file_names() {
    let mut nested = file("a/x.mkv");
    nested.file_id = 0;
    let mut plain = file("x.mkv");
    plain.file_id = 1;
    let files = [nested, plain];
    let by_path = select_file(&files, Some("x.mkv")).unwrap().unwrap();
    assert_eq!((by_path.file_id, by_path.path.as_str()), (1, "x.mkv"));
    let other = select_file(&files, Some("a/x.mkv")).unwrap().unwrap();
    assert_eq!(other.file_id, 0);
    let by_name = select_file(&files[..1], Some("x.mkv")).unwrap().unwrap();
    assert_eq!(by_name.file_id, 0);
}

#[test]
fn answers_are_numbers() {
    let files = [file("one.mkv"), file("two.mkv")];
    assert_eq!(select_answer(&files, " 2\n").unwrap().path, "two.mkv");
    assert_eq!(select_answer(&files, "two.mkv\n"), Err(SelectError::NotANumber));
    assert_eq!(select_answer(&files, "\n"), Err(SelectError::NotANumber));
    assert_eq!(
        select_answer(&files, "3"),
        Err(SelectError::IndexOutside { index: 3, count: 2 })
    );
}

#[test]
fn the_question_lists_the_files() {
    let mut large = file("two.mkv");
    large.length = 3 * 1024 * 1024;
    assert_eq!(
        selection_question(&[file("one.mkv"), large]),
        "\nVideo files:\n\n1. one.mkv    10 B\n2. two.mkv    3.00 MiB\n\nSelect file: "
    );
}

#[test]
fn reports_carry_ids_and_places_in_the_listing() {
    let names = ["Anime - 10.mkv", "cover.jpg", "Anime - 2.mkv", "subtitles/01.ass"];
    let files: Vec<TorrentFile> = names
        .iter()
        .enumerate()
        .map(|(file_id, name)| TorrentFile {
            file_id,
            path: name.to_string(),
            length: 128,
            torrent_offset: 0,
            padding: false,
        })
        .collect();
    let reports = inspect_files(&files);
    let ordinals: Vec<Option<usize>> =
        reports.iter().map(|report| report.playable_ordinal).collect();
    assert_eq!(ordinals, [Some(2), None, Some(1), None]);
    assert_eq!(
        reports[1],
        FileReport {
            index: 1,
            name: "cover.jpg".to_owned(),
            length: 128,
            playable: false,
            playable_ordinal: None,
        }
    );
    let listed = playable_files(&files);
    for report in reports {
        if let Some(ordinal) = report.playable_ordinal {
            let chosen = select_file(&listed, Some(&ordinal.to_string())).unwrap().unwrap();
            assert_eq!(chosen.file_id, report.index);
        }
    }
}
