//! Paths with `/` between their segments: file names, stems and extensions.

use crate::text::{
    chars_are, chars_of, leading, lemma_leading, lemma_leading_is, lemma_trailing,
    lemma_trailing_is, part, run_end, string_of, trailing, CharSet,
};
use vstd::prelude::*;

verus! {

/// The texts between the slashes of a path, in order.
pub open spec fn segments(path: Seq<char>) -> Seq<Seq<char>>
    decreases path.len(),
{
    let n = leading(path, CharSet::Except('/')) as int;
    if n < path.len() {
        seq![path.take(n)] + segments(path.skip(n + 1))
    } else {
        seq![path]
    }
}

/// Whether a segment names nothing: it is empty or a single dot.
pub open spec fn is_blank(segment: Seq<char>) -> bool {
    segment.len() == 0 || segment == "."@
}

/// The last of the segments that names something.
pub open spec fn last_named(segments: Seq<Seq<char>>) -> Option<Seq<char>>
    decreases segments.len(),
{
    if segments.len() == 0 {
        None
    } else if is_blank(segments.last()) {
        last_named(segments.drop_last())
    } else {
        Some(segments.last())
    }
}

/// The name of the file that a path leads to: its last segment that names something, unless
/// that leads upwards.
pub open spec fn file_name(path: Seq<char>) -> Option<Seq<char>> {
    match last_named(segments(path)) {
        Some(name) => if name == ".."@ {
            None
        } else {
            Some(name)
        },
        None => None,
    }
}

/// The index of the dot before the extension of a file name: its last dot, unless it begins the
/// name.
pub open spec fn extension_dot(name: Seq<char>) -> Option<int> {
    let dot = name.len() - trailing(name, CharSet::Except('.')) - 1;
    if dot > 0 {
        Some(dot)
    } else {
        None
    }
}

/// The part of the file name behind its last dot.
pub open spec fn extension(path: Seq<char>) -> Option<Seq<char>> {
    match file_name(path) {
        Some(name) => match extension_dot(name) {
            Some(dot) => Some(name.skip(dot + 1)),
            None => None,
        },
        None => None,
    }
}

/// The file name without its extension.
pub open spec fn file_stem(path: Seq<char>) -> Option<Seq<char>> {
    match file_name(path) {
        Some(name) => match extension_dot(name) {
            Some(dot) => Some(name.take(dot)),
            None => Some(name),
        },
        None => None,
    }
}

/// Whether a path leads strictly downwards: it does not begin at the root or with a dot segment,
/// and no segment leads upwards.
pub open spec fn leads_downwards(path: Seq<char>) -> bool {
    &&& path.len() > 0 ==> path[0] != '/'
    &&& segments(path)[0] != "."@
    &&& !segments(path).contains(".."@)
}

/// A path without slashes and dots has no extension.
pub proof fn lemma_plain_name(path: Seq<char>)
    requires
        forall|i: int| 0 <= i < path.len() ==> #[trigger] path[i] != '/' && path[i] != '.',
    ensures
        extension(path) is None,
{
    lemma_leading(path, CharSet::Except('/'));
    assert(segments(path) == seq![path]);
    lemma_trailing_is(path, CharSet::Except('.'), path.len());
    assert(seq![path].last() == path);
    assert(seq![path].drop_last() == Seq::<Seq<char>>::empty());
    reveal_with_fuel(last_named, 2);
}

/// The characters of an optional text.
pub open spec fn view_of(text: Option<Vec<char>>) -> Option<Seq<char>> {
    match text {
        Some(text) => Some(text@),
        None => None,
    }
}

/// The texts between the slashes of a path.
fn split_segments(path: &Vec<char>) -> (res: Vec<Vec<char>>)
    ensures
        res@.len() == segments(path@).len(),
        forall|i: int| 0 <= i < res@.len() ==> (#[trigger] res@[i])@ == segments(path@)[i],
        res@.len() > 0,
{
    let mut res: Vec<Vec<char>> = Vec::new();
    let mut from: usize = 0;
    assert(path@.skip(0) == path@);
    loop
        invariant
            from <= path@.len(),
            segments(path@).len() == res@.len() + segments(path@.skip(from as int)).len(),
            forall|i: int| 0 <= i < res@.len() ==> (#[trigger] res@[i])@ == segments(path@)[i],
            forall|i: int|
                0 <= i < segments(path@.skip(from as int)).len() ==> #[trigger] segments(
                    path@,
                )[res@.len() + i] == segments(path@.skip(from as int))[i],
        decreases path@.len() - from,
    {
        let ghost rest = path@.skip(from as int);
        let ghost done = res@.len() as int;
        let end: usize = run_end(path, from, CharSet::Except('/'));
        proof {
            lemma_leading(rest, CharSet::Except('/'));
            assert(segments(path@)[done + 0] == segments(rest)[0]);
        }
        res.push(part(path, from, end));
        if end == path.len() {
            assert(path@.subrange(from as int, end as int) == rest);
            return res;
        }
        assert(path@.subrange(from as int, end as int) == rest.take(end - from));
        assert(rest.skip(end - from + 1) == path@.skip(end + 1));
        proof {
            let tail = segments(path@.skip(end + 1));
            assert forall|i: int| 0 <= i < tail.len() implies #[trigger] segments(
                path@,
            )[res@.len() + i] == tail[i] by {
                assert(segments(rest)[i + 1] == tail[i]);
                assert(segments(path@)[done + (i + 1)] == segments(rest)[i + 1]);
            }
        }
        from = end + 1;
    }
}

/// The name of the file that a path leads to.
pub fn file_name_of(path: &Vec<char>) -> (res: Option<Vec<char>>)
    ensures
        view_of(res) == file_name(path@),
{
    let mut names: Vec<Vec<char>> = split_segments(path);
    let ghost all = segments(path@);
    assert(all.take(names@.len() as int) == all);
    loop
        invariant
            all == segments(path@),
            names@.len() <= all.len(),
            forall|i: int| 0 <= i < names@.len() ==> (#[trigger] names@[i])@ == all[i],
            last_named(all) == last_named(all.take(names@.len() as int)),
        decreases names@.len(),
    {
        let ghost count = names@.len() as int;
        match names.pop() {
            None => {
                return None;
            },
            Some(name) => {
                assert(name@ == all[count - 1]);
                assert(all.take(count).last() == all[count - 1]);
                assert(all.take(count).drop_last() == all.take(count - 1));
                if name.len() > 0 && !chars_are(&name, ".") {
                    return if chars_are(&name, "..") {
                        None
                    } else {
                        Some(name)
                    };
                }
            },
        }
    }
}

/// The index of the dot before the extension of a file name.
fn find_extension_dot(name: &Vec<char>) -> (res: Option<usize>)
    ensures
        match res {
            Some(dot) => extension_dot(name@) == Some(dot as int) && dot < name@.len(),
            None => extension_dot(name@) is None,
        },
{
    let mut dot: usize = name.len();
    proof {
        lemma_trailing(name@, CharSet::Except('.'));
    }
    while dot > 0
        invariant
            dot <= name@.len(),
            forall|i: int| dot <= i < name@.len() ==> #[trigger] name@[i] != '.',
        decreases dot,
    {
        dot -= 1;
        if name[dot] == '.' {
            proof {
                lemma_trailing_is(
                    name@,
                    CharSet::Except('.'),
                    (name@.len() - dot - 1) as nat,
                );
            }
            return if dot > 0 {
                Some(dot)
            } else {
                None
            };
        }
    }
    proof {
        lemma_trailing_is(name@, CharSet::Except('.'), name@.len());
    }
    None
}

/// The part of the file name behind its last dot.
pub fn extension_of(path: &Vec<char>) -> (res: Option<Vec<char>>)
    ensures
        view_of(res) == extension(path@),
{
    match file_name_of(path) {
        None => None,
        Some(name) => match find_extension_dot(&name) {
            None => None,
            Some(dot) => {
                let end: usize = name.len();
                assert(name@.skip(dot + 1) == name@.subrange(dot + 1, end as int));
                Some(part(&name, dot + 1, end))
            },
        },
    }
}

/// The file name without its extension.
pub fn file_stem_of(path: &Vec<char>) -> (res: Option<Vec<char>>)
    ensures
        view_of(res) == file_stem(path@),
{
    match file_name_of(path) {
        None => None,
        Some(name) => match find_extension_dot(&name) {
            None => Some(name),
            Some(dot) => {
                assert(name@.take(dot as int) == name@.subrange(0, dot as int));
                Some(part(&name, 0, dot))
            },
        },
    }
}

/// Whether a path leads strictly downwards.
pub fn is_downwards(path: &str) -> (res: bool)
    ensures
        res == leads_downwards(path@),
{
    let chars: Vec<char> = chars_of(path);
    if chars.len() > 0 && chars[0] == '/' {
        return false;
    }
    let names: Vec<Vec<char>> = split_segments(&chars);
    if chars_are(&names[0], ".") {
        return false;
    }
    for i in 0..names.len()
        invariant
            names@.len() == segments(path@).len(),
            forall|j: int| 0 <= j < names@.len() ==> (#[trigger] names@[j])@ == segments(path@)[j],
            forall|j: int| 0 <= j < i ==> #[trigger] segments(path@)[j] != ".."@,
    {
        if chars_are(&names[i], "..") {
            assert(segments(path@)[i as int] == ".."@);
            return false;
        }
    }
    true
}

/// The text of the name of the file that a path leads to.
pub fn name_text(path: &str) -> (res: Option<String>)
    ensures
        match res {
            Some(name) => file_name(path@) == Some(name@),
            None => file_name(path@) is None,
        },
{
    match file_name_of(&chars_of(path)) {
        Some(name) => Some(string_of(&name)),
        None => None,
    }
}

/// The segments of a path behind a slash are those of what follows it.
proof fn lemma_segments_behind(directory: Seq<char>, name: Seq<char>)
    requires
        !name.contains('/'),
    ensures
        segments(name) == seq![name],
        segments(directory + seq!['/'] + name).len() > 1,
        segments(directory + seq!['/'] + name).last() == name,
    decreases directory.len(),
{
    let path = directory + seq!['/'] + name;
    assert forall|i: int| 0 <= i < name.len() implies CharSet::Except('/').has(
        #[trigger] name[i],
    ) by {
        assert(name.contains(name[i]));
    }
    lemma_leading_is(name, CharSet::Except('/'), name.len());
    assert(path[directory.len() as int] == '/');
    lemma_leading(path, CharSet::Except('/'));
    let n = leading(path, CharSet::Except('/')) as int;
    assert(n <= directory.len()) by {
        if n > directory.len() {
            assert(CharSet::Except('/').has(path[directory.len() as int]));
        }
    }
    if n == directory.len() {
        assert(path.skip(n + 1) == name);
    } else {
        let rest = directory.skip(n + 1);
        assert(path.skip(n + 1) == rest + seq!['/'] + name);
        lemma_segments_behind(rest, name);
    }
    let tail = segments(path.skip(n + 1));
    assert(segments(path) == seq![path.take(n)] + tail);
    assert(segments(path).last() == tail.last());
}

/// The last segment of a path is the name of its file, whatever stands before it.
pub proof fn last_segments_are_names(directory: Seq<char>, name: Seq<char>)
    requires
        name.len() > 0,
        !name.contains('/'),
        name != "."@,
        name != ".."@,
    ensures
        file_name(name) == Some(name),
        file_name(directory + seq!['/'] + name) == Some(name),
{
    lemma_segments_behind(directory, name);
    assert(seq![name].last() == name);
}

/// A name with a dot in it that is not its first character has the extension behind its last dot,
/// and the stem before it, whatever directory it lies in.
pub proof fn endings_are_extensions(directory: Seq<char>, stem: Seq<char>, ending: Seq<char>)
    requires
        stem.len() > 0,
        !stem.contains('/'),
        !ending.contains('/') && !ending.contains('.'),
        ending.len() > 0,
    ensures
        extension(stem + seq!['.'] + ending) == Some(ending),
        extension(directory + seq!['/'] + stem + seq!['.'] + ending) == Some(ending),
        file_stem(stem + seq!['.'] + ending) == Some(stem),
        file_stem(directory + seq!['/'] + stem + seq!['.'] + ending) == Some(stem),
        file_name(directory + seq!['/'] + stem + seq!['.'] + ending) == Some(
            stem + seq!['.'] + ending,
        ),
{
    reveal_strlit(".");
    reveal_strlit("..");
    let name = stem + seq!['.'] + ending;
    let dot = stem.len() as int;
    assert(name[dot] == '.');
    assert(!name.contains('/')) by {
        if name.contains('/') {
            let i = choose|i: int| 0 <= i < name.len() && name[i] == '/';
            if i < dot {
                assert(stem[i] == '/');
            } else {
                assert(ending[i - dot - 1] == '/');
            }
        }
    }
    assert(name.last() == ending.last());
    assert(ending.contains(ending.last()));
    assert(name != "."@ && name != ".."@) by {
        assert(".."@[1] == '.');
    }
    last_segments_are_names(directory, name);
    assert(directory + seq!['/'] + stem + seq!['.'] + ending == directory + seq!['/'] + name);
    assert forall|i: int| name.len() - ending.len() <= i < name.len() implies CharSet::Except(
        '.',
    ).has(#[trigger] name[i]) by {
        assert(name[i] == ending[i - dot - 1]);
        assert(ending.contains(ending[i - dot - 1]));
    }
    lemma_trailing_is(name, CharSet::Except('.'), ending.len());
    assert(name.skip(dot + 1) == ending);
    assert(name.take(dot) == stem);
}

/// A path that steps upwards anywhere, or starts at the root, does not lead downwards.
pub proof fn upward_paths_do_not_lead_downwards(before: Seq<char>, after: Seq<char>)
    ensures
        !leads_downwards(seq!['/'] + after),
        !leads_downwards(".."@),
        !leads_downwards(before + seq!['/'] + ".."@),
{
    reveal_strlit("..");
    assert((seq!['/'] + after)[0] == '/');
    assert(!".."@.contains('/'));
    lemma_segments_behind(before, ".."@);
    let up = segments(before + seq!['/'] + ".."@);
    assert(up[up.len() - 1] == ".."@);
    assert(segments(".."@)[0] == ".."@);
}

/// A name whose only dot is its first character has no extension and is its own stem, whatever
/// directory it lies in, and so is a name without any dot.
pub proof fn hidden_names_have_no_extension(directory: Seq<char>, name: Seq<char>)
    requires
        name.len() > 0,
        name != "."@,
        name != ".."@,
        !name.contains('/'),
        forall|i: int| 1 <= i < name.len() ==> #[trigger] name[i] != '.',
    ensures
        extension(name) is None,
        extension(directory + seq!['/'] + name) is None,
        file_stem(name) == Some(name),
        file_stem(directory + seq!['/'] + name) == Some(name),
{
    last_segments_are_names(directory, name);
    let set = CharSet::Except('.');
    if name[0] == '.' {
        lemma_trailing_is(name, set, (name.len() - 1) as nat);
    } else {
        lemma_trailing_is(name, set, name.len());
    }
}

} // verus!
