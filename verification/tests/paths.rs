use std::path::{Component, Path};
use torrent_vlc::paths::{extension_of, file_stem_of, is_downwards, name_text};

fn chars(text: &str) -> Vec<char> {
    text.chars().collect()
}

fn text(chars: Option<Vec<char>>) -> Option<String> {
    chars.map(|chars| chars.into_iter().collect())
}

fn samples() -> Vec<String> {
    let pieces = ["", "a", ".", "..", "a.b", ".a", "a.", "..a", "a..b", "...", "x y.MKV", "é.ü"];
    let mut samples: Vec<String> = Vec::new();
    for first in pieces {
        samples.push(first.to_owned());
        samples.push(format!("/{first}"));
        for second in pieces {
            samples.push(format!("{first}/{second}"));
            samples.push(format!("/{first}//{second}/"));
            for third in ["a.b", "", ".", ".."] {
                samples.push(format!("{first}/{second}/{third}"));
            }
        }
    }
    samples
}

#[test]
fn names_agree_with_the_standard_library() {
    for sample in samples() {
        let path = Path::new(&sample);
        let name = path.file_name().map(|name| name.to_str().unwrap().to_owned());
        assert_eq!(name_text(&sample), name, "{sample}");
        let stem = path.file_stem().map(|stem| stem.to_str().unwrap().to_owned());
        assert_eq!(text(file_stem_of(&chars(&sample))), stem, "{sample}");
        let extension = path.extension().map(|end| end.to_str().unwrap().to_owned());
        assert_eq!(text(extension_of(&chars(&sample))), extension, "{sample}");
    }
}

#[test]
fn downward_paths_agree_with_the_standard_library() {
    for sample in samples() {
        let normal = Path::new(&sample)
            .components()
            .all(|component| matches!(component, Component::Normal(_)));
        assert_eq!(is_downwards(&sample), normal, "{sample}");
    }
}
