//! What differs between operating systems.

use crate::text::{chars_of, string_of};
use vstd::prelude::*;

verus! {

/// An operating system, as far as paths and the places of programs differ.
#[derive(Clone, Copy, Debug, PartialEq, Eq, Structural)]
pub enum Platform {
    MacOs,
    Windows,
    Other,
}

/// A character of a path, with a slash for whatever separates its segments.
pub open spec fn slash(c: char, platform: Platform) -> char {
    if platform is Windows && c == '\\' {
        '/'
    } else {
        c
    }
}

/// A path of the system with slashes between its segments.
pub open spec fn slashed(path: Seq<char>, platform: Platform) -> Seq<char> {
    path.map_values(|c: char| slash(c, platform))
}

/// Whether a path of the system starts with the letter of a drive.
pub open spec fn has_drive(path: Seq<char>, platform: Platform) -> bool {
    &&& platform is Windows
    &&& path.len() >= 2
    &&& 'a' <= path[0] <= 'z' || 'A' <= path[0] <= 'Z'
    &&& path[1] == ':'
}

/// Writes a path of the system with slashes between its segments.
pub fn with_slashes(path: &str, platform: Platform) -> (res: String)
    ensures
        res@ == slashed(path@, platform),
{
    let chars: Vec<char> = chars_of(path);
    let mut res: Vec<char> = Vec::new();
    for i in 0..chars.len()
        invariant
            res@ == slashed(chars@.take(i as int), platform),
    {
        let c: char = chars[i];
        match platform {
            Platform::Windows if c == '\\' => res.push('/'),
            _ => res.push(c),
        }
        assert(res@ == slashed(chars@.take(i + 1), platform));
    }
    assert(chars@.take(chars@.len() as int) == chars@);
    string_of(&res)
}

/// Whether a path of the system starts with the letter of a drive.
pub fn starts_with_drive(path: &str, platform: Platform) -> (res: bool)
    ensures
        res == has_drive(path@, platform),
{
    let chars: Vec<char> = chars_of(path);
    match platform {
        Platform::Windows => {
            if chars.len() < 2 || chars[1] != ':' {
                return false;
            }
            let c: char = chars[0];
            ('a' <= c && c <= 'z') || ('A' <= c && c <= 'Z')
        },
        _ => false,
    }
}

/// Paths with slashes between their segments are left as they are, and on other systems than
/// Windows all paths are.
pub proof fn slashes_stay(path: Seq<char>, platform: Platform)
    ensures
        slashed(slashed(path, platform), platform) == slashed(path, platform),
        !(platform is Windows) ==> slashed(path, platform) == path,
{
    assert(slashed(slashed(path, platform), platform) =~= slashed(path, platform));
    if !(platform is Windows) {
        assert(slashed(path, platform) =~= path);
    }
}

/// On Windows exactly the backslashes of a path become slashes.
pub proof fn backslashes_become_slashes(path: Seq<char>, i: int)
    requires
        0 <= i < path.len(),
    ensures
        slashed(path, Platform::Windows).len() == path.len(),
        path[i] == '\\' ==> slashed(path, Platform::Windows)[i] == '/',
        path[i] != '\\' ==> slashed(path, Platform::Windows)[i] == path[i],
{
}

} // verus!
