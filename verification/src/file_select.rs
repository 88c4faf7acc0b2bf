//! Which files of a torrent are playable, in which order they are listed, and which one is chosen.

use crate::natural::{compare_keys, natural_less, natural_order_is_an_order, natural_same, Rank};
use crate::numbers::{
    decimal, decimal_round_trip, decimal_text, lemma_decimal, parse_index, parse_usize, unsigned,
    unsigned_digits,
};
use crate::paths::{
    endings_are_extensions, extension, extension_of, file_name, lemma_plain_name, name_text,
};
use crate::size::{format_bytes, shown_size};
use crate::text::{
    chars_are, chars_of, is_digit, is_white_space, lowercase, lowercased, same_text, trim, trimmed,
    trimming_takes_white_space_off,
};
use crate::torrent::layout::TorrentFile;
use vstd::prelude::*;

verus! {

/// Whether a lower-case extension is one of a video file.
pub open spec fn is_video_extension(extension: Seq<char>) -> bool {
    ||| extension == "mkv"@
    ||| extension == "mp4"@
    ||| extension == "webm"@
    ||| extension == "avi"@
    ||| extension == "mov"@
    ||| extension == "m4v"@
    ||| extension == "ts"@
    ||| extension == "m2ts"@
}

/// Whether a path has the extension of a video file, in whatever ASCII case.
pub open spec fn playable_path(path: Seq<char>) -> bool {
    match extension(path) {
        Some(extension) => is_video_extension(lowercase(extension)),
        None => false,
    }
}

/// Whether a file can be played: it is no padding, has bytes, and is a video file.
pub open spec fn playable(file: TorrentFile) -> bool {
    !file.padding && file.length > 0 && playable_path(file.path@)
}

/// Whether the file at index `i` is listed before the one at index `j`: by natural order of the
/// paths, and where that makes no difference by index.
pub open spec fn listed_before(files: Seq<TorrentFile>, i: usize, j: usize) -> bool {
    let (a, b) = (files[i as int].path@, files[j as int].path@);
    natural_less(a, b) || (natural_same(a, b) && i < j)
}

/// Whether `order` lists the indices of the playable files, each once, in listing order.
pub open spec fn lists_playable(files: Seq<TorrentFile>, order: Seq<usize>) -> bool {
    &&& forall|k: int|
        0 <= k < order.len() ==> (#[trigger] order[k]) < files.len() && playable(
            files[order[k] as int],
        )
    &&& forall|i: usize| i < files.len() && #[trigger] playable(files[i as int]) ==> order.contains(i)
    &&& sorted_listing(files, order)
}

/// Whether each index in `order` is listed before those that follow it.
pub open spec fn sorted_listing(files: Seq<TorrentFile>, order: Seq<usize>) -> bool {
    forall|k: int, l: int|
        0 <= k < l < order.len() ==> listed_before(files, #[trigger] order[k], #[trigger] order[l])
}

/// Whether a path has the extension of a video file.
pub fn is_playable_path(path: &str) -> (res: bool)
    ensures
        res == playable_path(path@),
{
    match extension_of(&chars_of(path)) {
        Some(extension) => {
            let e: Vec<char> = lowercased(&extension);
            chars_are(&e, "mkv") || chars_are(&e, "mp4") || chars_are(&e, "webm") || chars_are(
                &e,
                "avi",
            ) || chars_are(&e, "mov") || chars_are(&e, "m4v") || chars_are(&e, "ts") || chars_are(
                &e,
                "m2ts",
            )
        },
        None => false,
    }
}

/// Whether a file can be played.
pub fn is_playable(file: &TorrentFile) -> (res: bool)
    ensures
        res == playable(*file),
{
    !file.padding && file.length > 0 && is_playable_path(file.path.as_str())
}

/// The listing order is a strict order of the indices.
pub proof fn listing_is_an_order(files: Seq<TorrentFile>, i: usize, j: usize, k: usize)
    ensures
        !listed_before(files, i, i),
        listed_before(files, i, j) && listed_before(files, j, k) ==> listed_before(files, i, k),
        i != j ==> listed_before(files, i, j) || listed_before(files, j, i),
        !(listed_before(files, i, j) && listed_before(files, j, i)),
{
    let (a, b, c) = (files[i as int].path@, files[j as int].path@, files[k as int].path@);
    natural_order_is_an_order(a, b, c);
    natural_order_is_an_order(b, a, c);
}

/// Two sorted listings of the same indices are the same.
proof fn lemma_same_listing(files: Seq<TorrentFile>, a: Seq<usize>, b: Seq<usize>)
    requires
        sorted_listing(files, a),
        sorted_listing(files, b),
        forall|i: usize| a.contains(i) <==> b.contains(i),
    ensures
        a == b,
    decreases a.len(),
{
    if a.len() == 0 {
        if b.len() > 0 {
            assert(b.contains(b[0]));
        }
        assert(a == b);
    } else {
        assert(a.contains(a[0]));
        let k = choose|k: int| 0 <= k < b.len() && b[k] == a[0];
        assert(b.contains(b[0]));
        let l = choose|l: int| 0 <= l < a.len() && a[l] == b[0];
        listing_is_an_order(files, a[0], b[0], a[0]);
        if k > 0 {
            assert(listed_before(files, b[0], b[k]));
            if l > 0 {
                assert(listed_before(files, a[0], a[l]));
            }
        }
        assert(a[0] == b[0]);
        let (x, y) = (a.drop_first(), b.drop_first());
        assert forall|m: int, n: int| 0 <= m < n < x.len() implies listed_before(
            files,
            #[trigger] x[m],
            #[trigger] x[n],
        ) by {
            assert(listed_before(files, a[m + 1], a[n + 1]));
        }
        assert forall|m: int, n: int| 0 <= m < n < y.len() implies listed_before(
            files,
            #[trigger] y[m],
            #[trigger] y[n],
        ) by {
            assert(listed_before(files, b[m + 1], b[n + 1]));
        }
        assert forall|i: usize| x.contains(i) <==> y.contains(i) by {
            listing_is_an_order(files, a[0], i, i);
            if x.contains(i) {
                let m = choose|m: int| 0 <= m < x.len() && x[m] == i;
                assert(a[m + 1] == i);
                assert(listed_before(files, a[0], a[m + 1]));
                assert(b.contains(i));
                let n = choose|n: int| 0 <= n < b.len() && b[n] == i;
                assert(y[n - 1] == i);
            }
            if y.contains(i) {
                let m = choose|m: int| 0 <= m < y.len() && y[m] == i;
                assert(b[m + 1] == i);
                assert(listed_before(files, b[0], b[m + 1]));
                assert(a.contains(i));
                let n = choose|n: int| 0 <= n < a.len() && a[n] == i;
                assert(x[n - 1] == i);
            }
        }
        lemma_same_listing(files, x, y);
        assert(a == seq![a[0]] + x);
        assert(b == seq![b[0]] + y);
    }
}

/// There is only one listing of the playable files.
pub proof fn listing_is_unique(files: Seq<TorrentFile>, a: Seq<usize>, b: Seq<usize>)
    requires
        lists_playable(files, a),
        lists_playable(files, b),
    ensures
        a == b,
{
    assert forall|i: usize| a.contains(i) <==> b.contains(i) by {
        if a.contains(i) {
            let k = choose|k: int| 0 <= k < a.len() && a[k] == i;
            assert(playable(files[a[k] as int]));
        }
        if b.contains(i) {
            let k = choose|k: int| 0 <= k < b.len() && b[k] == i;
            assert(playable(files[b[k] as int]));
        }
    }
    lemma_same_listing(files, a, b);
}

/// Merges two sorted listings; every index in `left` is below every index in `right`.
fn merge(
    files: &[TorrentFile],
    keys: &Vec<Vec<char>>,
    left: Vec<usize>,
    right: Vec<usize>,
) -> (res: Vec<usize>)
    requires
        keys@.len() == files@.len(),
        forall|i: int|
            0 <= i < keys@.len() ==> (#[trigger] keys@[i])@ == lowercase(files@[i].path@),
        forall|k: int| 0 <= k < left@.len() ==> (#[trigger] left@[k]) < files@.len(),
        forall|k: int| 0 <= k < right@.len() ==> (#[trigger] right@[k]) < files@.len(),
        forall|k: int, l: int|
            0 <= k < left@.len() && 0 <= l < right@.len() ==> #[trigger] left@[k]
                < #[trigger] right@[l],
        sorted_listing(files@, left@),
        sorted_listing(files@, right@),
    ensures
        sorted_listing(files@, res@),
        forall|i: usize| res@.contains(i) <==> left@.contains(i) || right@.contains(i),
{
    let mut res: Vec<usize> = Vec::new();
    let mut i: usize = 0;
    let mut j: usize = 0;
    while i < left.len() || j < right.len()
        invariant
            keys@.len() == files@.len(),
            forall|k: int|
                0 <= k < keys@.len() ==> (#[trigger] keys@[k])@ == lowercase(files@[k].path@),
            forall|k: int| 0 <= k < left@.len() ==> (#[trigger] left@[k]) < files@.len(),
            forall|k: int| 0 <= k < right@.len() ==> (#[trigger] right@[k]) < files@.len(),
            forall|k: int, l: int|
                0 <= k < left@.len() && 0 <= l < right@.len() ==> #[trigger] left@[k]
                    < #[trigger] right@[l],
            sorted_listing(files@, left@),
            sorted_listing(files@, right@),
            i <= left@.len(),
            j <= right@.len(),
            res@.len() == i + j,
            sorted_listing(files@, res@),
            forall|m: int, k: int|
                0 <= m < res@.len() && i <= k < left@.len() ==> listed_before(
                    files@,
                    #[trigger] res@[m],
                    #[trigger] left@[k],
                ),
            forall|m: int, k: int|
                0 <= m < res@.len() && j <= k < right@.len() ==> listed_before(
                    files@,
                    #[trigger] res@[m],
                    #[trigger] right@[k],
                ),
            forall|k: int| 0 <= k < i ==> res@.contains(#[trigger] left@[k]),
            forall|k: int| 0 <= k < j ==> res@.contains(#[trigger] right@[k]),
            forall|m: int|
                0 <= m < res@.len() ==> left@.contains(#[trigger] res@[m]) || right@.contains(
                    res@[m],
                ),
        decreases left@.len() - i + right@.len() - j,
    {
        let take_left: bool = if i == left.len() {
            false
        } else if j == right.len() {
            true
        } else {
            match compare_keys(&keys[left[i]], &keys[right[j]]) {
                Rank::Greater => false,
                _ => true,
            }
        };
        let ghost before = res@;
        let next: usize = if take_left {
            left[i]
        } else {
            right[j]
        };
        proof {
            if i < left@.len() && j < right@.len() {
                listing_is_an_order(files@, left@[i as int], right@[j as int], left@[i as int]);
                assert(left@[i as int] < right@[j as int]);
            }
            assert forall|k: int| i <= k < left@.len() && !(take_left && k == i) implies listed_before(
                files@,
                next,
                #[trigger] left@[k],
            ) by {
                if take_left {
                    assert(listed_before(files@, left@[i as int], left@[k]));
                } else if k > i {
                    assert(listed_before(files@, left@[i as int], left@[k]));
                    listing_is_an_order(files@, next, left@[i as int], left@[k]);
                }
            }
            assert forall|k: int| j <= k < right@.len() && (take_left || k != j) implies listed_before(
                files@,
                next,
                #[trigger] right@[k],
            ) by {
                if !take_left {
                    assert(listed_before(files@, right@[j as int], right@[k]));
                } else if k > j {
                    assert(listed_before(files@, right@[j as int], right@[k]));
                    listing_is_an_order(files@, next, right@[j as int], right@[k]);
                }
            }
        }
        res.push(next);
        proof {
            assert forall|x: usize| before.contains(x) implies res@.contains(x) by {
                let m = choose|m: int| 0 <= m < before.len() && before[m] == x;
                assert(res@[m] == x);
            }
            assert(res@[res@.len() - 1] == next);
        }
        if take_left {
            i += 1;
        } else {
            j += 1;
        }
    }
    res
}

/// Sorts the indices from position `lo` to position `hi` of an increasing list of indices.
fn sort_listing(
    files: &[TorrentFile],
    keys: &Vec<Vec<char>>,
    chosen: &Vec<usize>,
    lo: usize,
    hi: usize,
) -> (res: Vec<usize>)
    requires
        lo <= hi <= chosen@.len(),
        keys@.len() == files@.len(),
        forall|i: int|
            0 <= i < keys@.len() ==> (#[trigger] keys@[i])@ == lowercase(files@[i].path@),
        forall|k: int| 0 <= k < chosen@.len() ==> (#[trigger] chosen@[k]) < files@.len(),
        forall|k: int, l: int|
            0 <= k < l < chosen@.len() ==> #[trigger] chosen@[k] < #[trigger] chosen@[l],
    ensures
        sorted_listing(files@, res@),
        forall|i: usize|
            res@.contains(i) <==> chosen@.subrange(lo as int, hi as int).contains(i),
    decreases hi - lo,
{
    let ghost slice = chosen@.subrange(lo as int, hi as int);
    if hi - lo <= 1 {
        let mut res: Vec<usize> = Vec::new();
        if lo < hi {
            res.push(chosen[lo]);
        }
        assert(res@ == slice);
        return res;
    }
    let mid: usize = lo + (hi - lo) / 2;
    let ghost (first, second) = (
        chosen@.subrange(lo as int, mid as int),
        chosen@.subrange(mid as int, hi as int),
    );
    let left: Vec<usize> = sort_listing(files, keys, chosen, lo, mid);
    let right: Vec<usize> = sort_listing(files, keys, chosen, mid, hi);
    proof {
        assert forall|k: int| 0 <= k < left@.len() implies (#[trigger] left@[k]) < files@.len()
            && first.contains(left@[k]) by {
            assert(left@.contains(left@[k]));
        }
        assert forall|k: int| 0 <= k < right@.len() implies (#[trigger] right@[k]) < files@.len()
            && second.contains(right@[k]) by {
            assert(right@.contains(right@[k]));
        }
        assert forall|k: int, l: int|
            0 <= k < left@.len() && 0 <= l < right@.len() implies #[trigger] left@[k]
            < #[trigger] right@[l] by {
            let m = choose|m: int| 0 <= m < first.len() && first[m] == left@[k];
            let n = choose|n: int| 0 <= n < second.len() && second[n] == right@[l];
            assert(chosen@[lo + m] < chosen@[mid + n]);
        }
        assert forall|i: usize| slice.contains(i) <==> first.contains(i) || second.contains(i) by {
            assert(slice == first + second);
            if first.contains(i) {
                let m = choose|m: int| 0 <= m < first.len() && first[m] == i;
                assert(slice[m] == i);
            }
            if second.contains(i) {
                let n = choose|n: int| 0 <= n < second.len() && second[n] == i;
                assert(slice[first.len() + n] == i);
            }
            if slice.contains(i) {
                let m = choose|m: int| 0 <= m < slice.len() && slice[m] == i;
                if m < first.len() {
                    assert(first[m] == i);
                } else {
                    assert(second[m - first.len()] == i);
                }
            }
        }
    }
    merge(files, keys, left, right)
}

/// The indices of the playable files, in the order in which they are listed.
pub fn playable_order(files: &[TorrentFile]) -> (res: Vec<usize>)
    ensures
        lists_playable(files@, res@),
{
    let mut keys: Vec<Vec<char>> = Vec::new();
    let mut chosen: Vec<usize> = Vec::new();
    for i in 0..files.len()
        invariant
            keys@.len() == i,
            forall|k: int| 0 <= k < i ==> (#[trigger] keys@[k])@ == lowercase(files@[k].path@),
            forall|k: int|
                0 <= k < chosen@.len() ==> (#[trigger] chosen@[k]) < i && playable(
                    files@[chosen@[k] as int],
                ),
            forall|k: int, l: int|
                0 <= k < l < chosen@.len() ==> #[trigger] chosen@[k] < #[trigger] chosen@[l],
            forall|k: usize| k < i && #[trigger] playable(files@[k as int]) ==> chosen@.contains(k),
    {
        keys.push(lowercased(&chars_of(files[i].path.as_str())));
        let ghost before = chosen@;
        if is_playable(&files[i]) {
            chosen.push(i);
            proof {
                assert(chosen@[before.len() as int] == i);
                assert forall|k: usize| before.contains(k) implies chosen@.contains(k) by {
                    let m = choose|m: int| 0 <= m < before.len() && before[m] == k;
                    assert(chosen@[m] == k);
                }
            }
        }
    }
    let res: Vec<usize> = sort_listing(files, &keys, &chosen, 0, chosen.len());
    proof {
        assert(chosen@.subrange(0, chosen@.len() as int) == chosen@);
        assert forall|k: int| 0 <= k < res@.len() implies (#[trigger] res@[k]) < files@.len()
            && playable(files@[res@[k] as int]) by {
            assert(res@.contains(res@[k]));
            let m = choose|m: int| 0 <= m < chosen@.len() && chosen@[m] == res@[k];
            assert(chosen@[m] < files@.len());
        }
    }
    res
}

/// The files at the given indices.
pub open spec fn files_at(files: Seq<TorrentFile>, order: Seq<usize>) -> Seq<TorrentFile> {
    Seq::new(order.len(), |k: int| files[order[k] as int])
}

/// The playable files in natural order of their paths; files between which that order makes no
/// difference keep the order in which they are given.
pub fn playable_files(files: &[TorrentFile]) -> (res: Vec<TorrentFile>)
    ensures
        exists|order: Seq<usize>|
            #[trigger] lists_playable(files@, order) && res@ == files_at(files@, order),
{
    let order: Vec<usize> = playable_order(files);
    let mut res: Vec<TorrentFile> = Vec::new();
    for k in 0..order.len()
        invariant
            lists_playable(files@, order@),
            res@ == files_at(files@, order@).take(k as int),
    {
        assert(order@[k as int] < files@.len());
        res.push(files[order[k]].clone());
        assert(files_at(files@, order@).take(k + 1) == files_at(files@, order@).take(
            k as int,
        ).push(files@[order@[k as int] as int]));
    }
    assert(files_at(files@, order@).take(order@.len() as int) == files_at(files@, order@));
    res
}

/// Why no file is chosen.
#[derive(Clone, Copy, Debug, PartialEq, Eq)]
pub enum SelectError {
    /// There is nothing to choose from.
    NoPlayableFiles,
    /// The number is not one of a listed file.
    IndexOutside { index: usize, count: usize },
    /// No file has the given path or name.
    NotFound,
    /// The answer is not a number.
    NotANumber,
}

/// The file with the given number, counted from one.
pub open spec fn numbered(files: Seq<TorrentFile>, index: usize) -> Result<
    TorrentFile,
    SelectError,
> {
    if index == 0 || index > files.len() {
        Err(SelectError::IndexOutside { index, count: files.len() as usize })
    } else {
        Ok(files[index - 1])
    }
}

/// The first file with the given path.
pub open spec fn first_at_path(files: Seq<TorrentFile>, path: Seq<char>) -> Option<TorrentFile>
    decreases files.len(),
{
    if files.len() == 0 {
        None
    } else if files[0].path@ == path {
        Some(files[0])
    } else {
        first_at_path(files.drop_first(), path)
    }
}

/// The first file with the given file name.
pub open spec fn first_named(files: Seq<TorrentFile>, name: Seq<char>) -> Option<TorrentFile>
    decreases files.len(),
{
    if files.len() == 0 {
        None
    } else if file_name(files[0].path@) == Some(name) {
        Some(files[0])
    } else {
        first_named(files.drop_first(), name)
    }
}

/// The file that is meant by a path, or else by a file name.
pub open spec fn called_file(files: Seq<TorrentFile>, name: Seq<char>) -> Option<TorrentFile> {
    match first_at_path(files, name) {
        Some(file) => Some(file),
        None => first_named(files, name),
    }
}

/// The file that is chosen without asking: by number, or else by path, or else by file name;
/// the only file if none is named. `None` if the user has to be asked.
pub open spec fn chosen_file(files: Seq<TorrentFile>, selector: Option<Seq<char>>) -> Result<
    Option<TorrentFile>,
    SelectError,
> {
    if files.len() == 0 {
        Err(SelectError::NoPlayableFiles)
    } else {
        match selector {
            Some(selector) => match unsigned(selector, usize::MAX as nat) {
                Some(index) => match numbered(files, index as usize) {
                    Ok(file) => Ok(Some(file)),
                    Err(error) => Err(error),
                },
                None => match called_file(files, selector) {
                    Some(file) => Ok(Some(file)),
                    None => Err(SelectError::NotFound),
                },
            },
            None => if files.len() == 1 {
                Ok(Some(files[0]))
            } else {
                Ok(None)
            },
        }
    }
}

/// The file that is chosen by an answer to the question for a number.
pub open spec fn answered_file(files: Seq<TorrentFile>, answer: Seq<char>) -> Result<
    TorrentFile,
    SelectError,
> {
    match unsigned(trim(answer), usize::MAX as nat) {
        Some(index) => numbered(files, index as usize),
        None => Err(SelectError::NotANumber),
    }
}

/// Chooses the file with the given number, counted from one.
fn select_number(files: &[TorrentFile], index: usize) -> (res: Result<TorrentFile, SelectError>)
    ensures
        res == numbered(files@, index),
{
    if index == 0 || index > files.len() {
        Err(SelectError::IndexOutside { index, count: files.len() })
    } else {
        Ok(files[index - 1].clone())
    }
}

/// Finds the first file with the given path.
fn find_path(files: &[TorrentFile], path: &str) -> (res: Option<TorrentFile>)
    ensures
        res == first_at_path(files@, path@),
{
    assert(files@.skip(0) == files@);
    for i in 0..files.len()
        invariant
            first_at_path(files@, path@) == first_at_path(files@.skip(i as int), path@),
    {
        assert(files@.skip(i as int).drop_first() == files@.skip(i + 1));
        if same_text(files[i].path.as_str(), path) {
            return Some(files[i].clone());
        }
    }
    None
}

/// Finds the first file with the given file name.
fn find_name(files: &[TorrentFile], name: &str) -> (res: Option<TorrentFile>)
    ensures
        res == first_named(files@, name@),
{
    assert(files@.skip(0) == files@);
    for i in 0..files.len()
        invariant
            first_named(files@, name@) == first_named(files@.skip(i as int), name@),
    {
        assert(files@.skip(i as int).drop_first() == files@.skip(i + 1));
        if let Some(last) = name_text(files[i].path.as_str()) {
            if same_text(last.as_str(), name) {
                return Some(files[i].clone());
            }
        }
    }
    None
}

/// Chooses a file by the user's selector: a number counted from one, a path, or a file name if no
/// file has that path. The result is `None` if the user has to be asked.
pub fn select_file(files: &[TorrentFile], selector: Option<&str>) -> (res: Result<
    Option<TorrentFile>,
    SelectError,
>)
    ensures
        res == chosen_file(
            files@,
            match selector {
                Some(selector) => Some(selector@),
                None => None,
            },
        ),
{
    if files.len() == 0 {
        return Err(SelectError::NoPlayableFiles);
    }
    let name: &str = match selector {
        Some(name) => name,
        None => {
            return if files.len() == 1 {
                Ok(Some(files[0].clone()))
            } else {
                Ok(None)
            };
        },
    };
    if let Some(index) = parse_index(name) {
        return match select_number(files, index) {
            Ok(file) => Ok(Some(file)),
            Err(error) => Err(error),
        };
    }
    match find_path(files, name) {
        Some(file) => Ok(Some(file)),
        None => match find_name(files, name) {
            Some(file) => Ok(Some(file)),
            None => Err(SelectError::NotFound),
        },
    }
}

/// Chooses the file that an answer to the question for a number means.
pub fn select_answer(files: &[TorrentFile], answer: &str) -> (res: Result<
    TorrentFile,
    SelectError,
>)
    ensures
        res == answered_file(files@, answer@),
{
    match parse_usize(&trimmed(&chars_of(answer))) {
        Some(index) => select_number(files, index),
        None => Err(SelectError::NotANumber),
    }
}

/// The line for a file in the question for a number.
pub open spec fn question_line(number: nat, file: TorrentFile) -> Seq<char> {
    decimal(number) + ". "@ + file.path@ + "    "@ + shown_size(file.length) + "\n"@
}

/// The lines for the first `count` files in the question for a number.
pub open spec fn question_lines(files: Seq<TorrentFile>, count: nat) -> Seq<char>
    decreases count,
{
    if count == 0 {
        Seq::empty()
    } else {
        question_lines(files, (count - 1) as nat) + question_line(count, files[count - 1])
    }
}

/// The question for the number of a file, with the files numbered from one.
pub fn selection_question(files: &[TorrentFile]) -> (res: String)
    ensures
        res@ == "\nVideo files:\n\n"@ + question_lines(files@, files@.len()) + "\nSelect file: "@,
{
    let mut res = "\nVideo files:\n\n".to_owned();
    for i in 0..files.len()
        invariant
            res@ == "\nVideo files:\n\n"@ + question_lines(files@, i as nat),
    {
        let ghost before = res@;
        res.append(decimal_text(i as u64 + 1).as_str());
        res.append(". ");
        res.append(files[i].path.as_str());
        res.append("    ");
        res.append(format_bytes(files[i].length).as_str());
        res.append("\n");
        assert(res@ == before + question_line((i + 1) as nat, files@[i as int]));
        assert(question_lines(files@, (i + 1) as nat) == question_lines(files@, i as nat)
            + question_line((i + 1) as nat, files@[i as int]));
    }
    res.append("\nSelect file: ");
    res
}

/// The number of a listed file selects that file.
pub proof fn numbers_select_listed_files(files: Seq<TorrentFile>, order: Seq<usize>, k: int)
    requires
        lists_playable(files, order),
        0 <= k < order.len(),
        order.len() <= usize::MAX,
    ensures
        chosen_file(files_at(files, order), Some(decimal((k + 1) as nat))) == Ok::<
            Option<TorrentFile>,
            SelectError,
        >(Some(files[order[k] as int])),
{
    decimal_round_trip((k + 1) as nat, usize::MAX as nat);
}

/// The path of a file, as long as it is not a number, selects a file with that path.
pub proof fn paths_select_their_files(files: Seq<TorrentFile>, k: int)
    requires
        0 <= k < files.len(),
        unsigned(files[k].path@, usize::MAX as nat) is None,
    ensures
        chosen_file(files, Some(files[k].path@)) matches Ok(Some(file)) && file.path@
            == files[k].path@,
{
    lemma_first_at_path(files, k);
}

/// The path of a playable file selects a file with that path, whatever other files are called.
pub proof fn paths_select_listed_files(files: Seq<TorrentFile>, k: int)
    requires
        0 <= k < files.len(),
        playable_path(files[k].path@),
    ensures
        chosen_file(files, Some(files[k].path@)) matches Ok(Some(file)) && file.path@
            == files[k].path@,
{
    let path = files[k].path@;
    if unsigned(path, usize::MAX as nat) is Some {
        let digits = unsigned_digits(path);
        assert forall|i: int| 0 <= i < path.len() implies path[i] != '.' && path[i] != '/' by {
            if path[0] == '+' && i > 0 {
                assert(digits[i - 1] == path[i]);
            } else if path[0] != '+' {
                assert(digits[i] == path[i]);
            }
        }
        lemma_plain_name(path);
    }
    paths_select_their_files(files, k);
}

/// A file name that is neither a number nor the path of a file selects a file with that name.
pub proof fn names_select_listed_files(files: Seq<TorrentFile>, name: Seq<char>, k: int)
    requires
        0 <= k < files.len(),
        file_name(files[k].path@) == Some(name),
        unsigned(name, usize::MAX as nat) is None,
        forall|i: int| 0 <= i < files.len() ==> (#[trigger] files[i]).path@ != name,
    ensures
        chosen_file(files, Some(name)) matches Ok(Some(file)) && file_name(file.path@) == Some(
            name,
        ),
{
    lemma_none_at_path(files, name);
    lemma_first_named(files, name, k);
}

proof fn lemma_first_at_path(files: Seq<TorrentFile>, k: int)
    requires
        0 <= k < files.len(),
    ensures
        first_at_path(files, files[k].path@) matches Some(file) && file.path@ == files[k].path@,
    decreases files.len(),
{
    if files[0].path@ != files[k].path@ {
        assert(files.drop_first()[k - 1] == files[k]);
        lemma_first_at_path(files.drop_first(), k - 1);
    }
}

proof fn lemma_none_at_path(files: Seq<TorrentFile>, path: Seq<char>)
    requires
        forall|i: int| 0 <= i < files.len() ==> (#[trigger] files[i]).path@ != path,
    ensures
        first_at_path(files, path) is None,
    decreases files.len(),
{
    if files.len() > 0 {
        assert forall|i: int| 0 <= i < files.len() - 1 implies (
        #[trigger] files.drop_first()[i]).path@ != path by {
            assert(files.drop_first()[i] == files[i + 1]);
        }
        lemma_none_at_path(files.drop_first(), path);
    }
}

proof fn lemma_first_named(files: Seq<TorrentFile>, name: Seq<char>, k: int)
    requires
        0 <= k < files.len(),
        file_name(files[k].path@) == Some(name),
    ensures
        first_named(files, name) matches Some(file) && file_name(file.path@) == Some(name),
    decreases files.len(),
{
    if file_name(files[0].path@) != Some(name) {
        assert(files.drop_first()[k - 1] == files[k]);
        lemma_first_named(files.drop_first(), name, k - 1);
    }
}

/// What is reported of a file of a torrent: its id, its path, its length, whether it can be
/// played, and its number in the listing of playable files.
#[derive(Debug, PartialEq, Eq)]
pub struct FileReport {
    pub index: usize,
    pub name: String,
    pub length: u64,
    pub playable: bool,
    pub playable_ordinal: Option<usize>,
}

/// Whether `report` is the one of the file at index `i`, given the listing of playable files.
pub open spec fn reports(files: Seq<TorrentFile>, order: Seq<usize>, i: int, report: FileReport) -> bool {
    &&& report.index == files[i].file_id
    &&& report.name@ == files[i].path@
    &&& report.length == files[i].length
    &&& report.playable == playable(files[i])
    &&& match report.playable_ordinal {
        Some(number) => 1 <= number <= order.len() && order[number - 1] == i,
        None => !report.playable,
    }
}

/// Reports on every file of a torrent, in the order in which they are given.
pub fn inspect_files(files: &[TorrentFile]) -> (res: Vec<FileReport>)
    ensures
        res@.len() == files@.len(),
        exists|order: Seq<usize>|
            #[trigger] lists_playable(files@, order) && forall|i: int|
                0 <= i < files@.len() ==> reports(files@, order, i, #[trigger] res@[i]),
{
    let order: Vec<usize> = playable_order(files);
    let mut ordinals: Vec<Option<usize>> = Vec::new();
    for i in 0..files.len()
        invariant
            ordinals@.len() == i,
            forall|j: int| 0 <= j < i ==> #[trigger] ordinals@[j] is None,
    {
        ordinals.push(None);
    }
    for k in 0..order.len()
        invariant
            lists_playable(files@, order@),
            ordinals@.len() == files@.len(),
            forall|j: int|
                0 <= j < files@.len() ==> (#[trigger] ordinals@[j] matches Some(number) ==> 1
                    <= number <= k && order@[number - 1] == j),
            forall|l: int| 0 <= l < k ==> ordinals@[#[trigger] order@[l] as int] is Some,
    {
        assert(order@[k as int] < files@.len());
        ordinals.set(order[k], Some(k + 1));
    }
    let mut res: Vec<FileReport> = Vec::new();
    for i in 0..files.len()
        invariant
            lists_playable(files@, order@),
            ordinals@.len() == files@.len(),
            forall|j: int|
                0 <= j < files@.len() ==> (#[trigger] ordinals@[j] matches Some(number) ==> 1
                    <= number <= order@.len() && order@[number - 1] == j),
            forall|l: int| 0 <= l < order@.len() ==> ordinals@[#[trigger] order@[l] as int] is Some,
            res@.len() == i,
            forall|j: int| 0 <= j < i ==> reports(files@, order@, j, #[trigger] res@[j]),
    {
        let file: &TorrentFile = &files[i];
        let playable: bool = is_playable(file);
        proof {
            if playable {
                assert(order@.contains(i));
                let l = choose|l: int| 0 <= l < order@.len() && order@[l] == i;
                assert(ordinals@[order@[l] as int] is Some);
            }
        }
        res.push(
            FileReport {
                index: file.file_id,
                name: file.path.clone(),
                length: file.length,
                playable,
                playable_ordinal: ordinals[i],
            },
        );
    }
    res
}

/// The number that is reported of a playable file selects that file from the listing.
pub proof fn reported_numbers_select_their_file(
    files: Seq<TorrentFile>,
    order: Seq<usize>,
    i: int,
    report: FileReport,
)
    requires
        lists_playable(files, order),
        0 <= i < files.len(),
        reports(files, order, i, report),
        order.len() <= usize::MAX,
    ensures
        report.playable_ordinal is Some <==> playable(files[i]),
        report.playable_ordinal matches Some(number) ==> chosen_file(
            files_at(files, order),
            Some(decimal(number as nat)),
        ) == Ok::<Option<TorrentFile>, SelectError>(Some(files[i])),
{
    if let Some(number) = report.playable_ordinal {
        numbers_select_listed_files(files, order, number - 1);
        assert(playable(files[order[number - 1] as int]));
    }
}

/// Without a selector a file is chosen without asking exactly if there is only one. The user is
/// asked if there are several, and nothing can be chosen if there is none.
pub proof fn only_a_single_file_is_not_asked_for(files: Seq<TorrentFile>)
    ensures
        files.len() == 0 ==> chosen_file(files, None) == Err::<Option<TorrentFile>, SelectError>(
            SelectError::NoPlayableFiles,
        ),
        files.len() == 1 ==> chosen_file(files, None) == Ok::<Option<TorrentFile>, SelectError>(
            Some(files[0]),
        ),
        files.len() >= 2 ==> chosen_file(files, None) == Ok::<Option<TorrentFile>, SelectError>(None),
{
}

/// A selector never leads to a question: it chooses one of the files, or is refused. An empty list
/// refuses every selector.
pub proof fn selectors_choose_or_are_refused(files: Seq<TorrentFile>, selector: Seq<char>)
    ensures
        files.len() == 0 ==> chosen_file(files, Some(selector)) == Err::<
            Option<TorrentFile>,
            SelectError,
        >(SelectError::NoPlayableFiles),
        match chosen_file(files, Some(selector)) {
            Ok(choice) => choice matches Some(file) && files.contains(file),
            Err(error) => !(error is NotANumber),
        },
{
    if unsigned(selector, usize::MAX as nat) is None {
        lemma_path_found_inside(files, selector);
        lemma_name_found_inside(files, selector);
    }
}

proof fn lemma_path_found_inside(files: Seq<TorrentFile>, path: Seq<char>)
    ensures
        first_at_path(files, path) matches Some(file) ==> files.contains(file),
    decreases files.len(),
{
    if files.len() > 0 {
        lemma_path_found_inside(files.drop_first(), path);
        if let Some(file) = first_at_path(files.drop_first(), path) {
            let i = choose|i: int|
                0 <= i < files.drop_first().len() && files.drop_first()[i] == file;
            assert(files[i + 1] == file);
        }
        assert(files.contains(files[0]));
    }
}

proof fn lemma_name_found_inside(files: Seq<TorrentFile>, name: Seq<char>)
    ensures
        first_named(files, name) matches Some(file) ==> files.contains(file) && file_name(
            file.path@,
        ) == Some(name),
    decreases files.len(),
{
    if files.len() > 0 {
        lemma_name_found_inside(files.drop_first(), name);
        if let Some(file) = first_named(files.drop_first(), name) {
            let i = choose|i: int|
                0 <= i < files.drop_first().len() && files.drop_first()[i] == file;
            assert(files[i + 1] == file);
        }
        assert(files.contains(files[0]));
    }
}

/// Numbers from one to the number of files select the file at that place; every other number is
/// refused with itself and the number of files.
pub proof fn numbers_count_from_one(files: Seq<TorrentFile>, number: usize)
    requires
        0 < files.len() <= usize::MAX,
    ensures
        1 <= number <= files.len() ==> chosen_file(files, Some(decimal(number as nat))) == Ok::<
            Option<TorrentFile>,
            SelectError,
        >(Some(files[number - 1])),
        number == 0 || number > files.len() ==> chosen_file(files, Some(decimal(number as nat)))
            == Err::<Option<TorrentFile>, SelectError>(
            SelectError::IndexOutside { index: number, count: files.len() as usize },
        ),
{
    decimal_round_trip(number as nat, usize::MAX as nat);
}

/// A selector that is neither a number, nor the path of a file, nor the name of one is refused.
pub proof fn unknown_names_are_refused(files: Seq<TorrentFile>, selector: Seq<char>)
    requires
        files.len() > 0,
        unsigned(selector, usize::MAX as nat) is None,
        forall|i: int|
            0 <= i < files.len() ==> (#[trigger] files[i]).path@ != selector && file_name(
                files[i].path@,
            ) != Some(selector),
    ensures
        chosen_file(files, Some(selector)) == Err::<Option<TorrentFile>, SelectError>(
            SelectError::NotFound,
        ),
{
    lemma_path_found_inside(files, selector);
    lemma_none_at_path(files, selector);
    lemma_name_found_inside(files, selector);
    if let Some(file) = first_named(files, selector) {
        let i = choose|i: int| 0 <= i < files.len() && files[i] == file;
        assert(file_name(files[i].path@) != Some(selector));
    }
}

/// The first of several files with the same path is the one that the path selects.
pub proof fn earlier_files_are_preferred(files: Seq<TorrentFile>, k: int)
    requires
        0 <= k < files.len(),
        unsigned(files[k].path@, usize::MAX as nat) is None,
        forall|i: int| 0 <= i < k ==> (#[trigger] files[i]).path@ != files[k].path@,
    ensures
        chosen_file(files, Some(files[k].path@)) == Ok::<Option<TorrentFile>, SelectError>(
            Some(files[k]),
        ),
{
    lemma_first_of_path(files, k);
}

proof fn lemma_first_of_path(files: Seq<TorrentFile>, k: int)
    requires
        0 <= k < files.len(),
        forall|i: int| 0 <= i < k ==> (#[trigger] files[i]).path@ != files[k].path@,
    ensures
        first_at_path(files, files[k].path@) == Some(files[k]),
    decreases files.len(),
{
    if k > 0 {
        let rest = files.drop_first();
        assert(rest[k - 1] == files[k]);
        assert(files[0].path@ != files[k].path@);
        assert forall|i: int| 0 <= i < k - 1 implies (#[trigger] rest[i]).path@ != rest[k
            - 1].path@ by {
            assert(rest[i] == files[i + 1]);
        }
        lemma_first_of_path(rest, k - 1);
    }
}

/// An answer is a number from one to the number of files, with or without white space around it;
/// every other number is refused with itself, and everything else as no number.
pub proof fn answers_are_numbers_from_one(
    files: Seq<TorrentFile>,
    number: usize,
    before: Seq<char>,
    after: Seq<char>,
)
    requires
        files.len() <= usize::MAX,
        forall|i: int| 0 <= i < before.len() ==> is_white_space(#[trigger] before[i]),
        forall|i: int| 0 <= i < after.len() ==> is_white_space(#[trigger] after[i]),
    ensures
        answered_file(files, before + decimal(number as nat) + after) == if 1 <= number
            <= files.len() {
            Ok(files[number - 1])
        } else {
            Err(SelectError::IndexOutside { index: number, count: files.len() as usize })
        },
        answered_file(files, before + after) == Err::<TorrentFile, SelectError>(
            SelectError::NotANumber,
        ),
{
    let digits = decimal(number as nat);
    lemma_decimal(number as nat);
    assert(is_digit(digits[0]) && is_digit(digits.last()));
    trimming_takes_white_space_off(before + digits + after, before, digits, after);
    let none = Seq::<char>::empty();
    assert(before + after == before + none + after);
    trimming_takes_white_space_off(before + after, before, none, after);
    decimal_round_trip(number as nat, usize::MAX as nat);
}

/// The question lists every file with the number that selects it, its path and its size, each on
/// a line of its own and in order.
pub proof fn questions_list_every_file(files: Seq<TorrentFile>, k: int)
    requires
        0 <= k < files.len(),
    ensures
        question_lines(files, (k + 1) as nat) == question_lines(files, k as nat) + (decimal(
            (k + 1) as nat,
        ) + ". "@ + files[k].path@ + "    "@ + shown_size(files[k].length) + "\n"@),
        question_lines(files, 0).len() == 0,
{
}

/// The listing holds exactly the playable files, each once; of two of them the one that comes
/// first in the natural order of the whole paths is listed first, and where that order makes no
/// difference, the one that comes first in the torrent.
pub proof fn listings_follow_the_whole_paths(
    files: Seq<TorrentFile>,
    order: Seq<usize>,
    k: int,
    l: int,
)
    requires
        lists_playable(files, order),
        0 <= k < order.len(),
        0 <= l < order.len(),
        k != l,
    ensures
        order[k] != order[l],
        ({
            let (a, b) = (files[order[k] as int].path@, files[order[l] as int].path@);
            &&& natural_less(a, b) ==> k < l
            &&& natural_same(a, b) && order[k] < order[l] ==> k < l
        }),
{
    let (i, j) = (order[k], order[l]);
    listing_is_an_order(files, i, j, i);
    if k < l {
        assert(listed_before(files, order[k], order[l]));
    } else {
        assert(listed_before(files, order[l], order[k]));
    }
}

/// A file is listed exactly if it has bytes, is no padding, and its name ends with a dot and one
/// of the extensions of video files, in whatever case of letters.
pub proof fn video_files_are_listed(
    files: Seq<TorrentFile>,
    order: Seq<usize>,
    i: usize,
    directory: Seq<char>,
    stem: Seq<char>,
    ending: Seq<char>,
)
    requires
        lists_playable(files, order),
        i < files.len(),
        files[i as int].path@ == stem + seq!['.'] + ending || files[i as int].path@ == directory
            + seq!['/'] + stem + seq!['.'] + ending,
        stem.len() > 0 && !stem.contains('/'),
        ending.len() > 0 && !ending.contains('/') && !ending.contains('.'),
    ensures
        order.contains(i) <==> {
            let e = lowercase(ending);
            &&& files[i as int].length > 0
            &&& !files[i as int].padding
            &&& e == "mkv"@ || e == "mp4"@ || e == "webm"@ || e == "avi"@ || e == "mov"@ || e
                == "m4v"@ || e == "ts"@ || e == "m2ts"@
        },
{
    endings_are_extensions(directory, stem, ending);
    if order.contains(i) {
        let k = choose|k: int| 0 <= k < order.len() && order[k] == i;
        assert(playable(files[order[k] as int]));
    }
    if playable(files[i as int]) {
        assert(order.contains(i));
    }
}

/// The report on a file tells its id, path and length as the torrent has them, and whether it is
/// in the listing.
pub proof fn reports_tell_what_the_torrent_says(
    files: Seq<TorrentFile>,
    order: Seq<usize>,
    i: usize,
    report: FileReport,
)
    requires
        lists_playable(files, order),
        i < files.len(),
        reports(files, order, i as int, report),
    ensures
        report.index == files[i as int].file_id,
        report.name@ == files[i as int].path@,
        report.length == files[i as int].length,
        report.playable <==> order.contains(i),
        report.playable_ordinal is Some <==> order.contains(i),
        report.playable_ordinal matches Some(number) ==> 1 <= number <= order.len() && order[number
            - 1] == i,
{
    if order.contains(i) {
        let k = choose|k: int| 0 <= k < order.len() && order[k] == i;
        assert(playable(files[order[k] as int]));
    }
    if let Some(number) = report.playable_ordinal {
        assert(order.contains(order[number - 1]));
    }
}

/// A listed file has bytes, is no padding, and has the extension of a video file.
pub proof fn listed_files_are_video_files(files: Seq<TorrentFile>, order: Seq<usize>, k: int)
    requires
        lists_playable(files, order),
        0 <= k < order.len(),
    ensures
        order[k] < files.len(),
        files[order[k] as int].length > 0,
        !files[order[k] as int].padding,
        extension(files[order[k] as int].path@) matches Some(e) && {
            let e = lowercase(e);
            e == "mkv"@ || e == "mp4"@ || e == "webm"@ || e == "avi"@ || e == "mov"@ || e
                == "m4v"@ || e == "ts"@ || e == "m2ts"@
        },
{
    assert(playable(files[order[k] as int]));
}

} // verus!
