//! Where VLC is looked for, and how it is started.

use crate::platform::Platform;
use crate::text::joined;
use vstd::prelude::*;

verus! {

/// A path, and whether there is a file.
#[derive(Debug)]
pub struct Place<P> {
    pub path: P,
    pub is_file: bool,
}

/// An executable that VLC may have. An absolute one is looked for where it says, another one in
/// each of the directories for executables.
#[derive(Debug)]
pub struct Candidate<P> {
    pub place: Place<P>,
    pub is_absolute: bool,
    pub on_path: Vec<Place<P>>,
}

/// Why VLC is not found.
#[derive(Debug, PartialEq, Eq)]
pub enum VlcError<P> {
    /// The executable that was asked for does not exist.
    Missing(P),
    /// None of the usual executables exists.
    NotFound,
}

/// The path of a place where there is a file.
pub open spec fn existing<P>(place: Place<P>) -> Option<P> {
    if place.is_file {
        Some(place.path)
    } else {
        None
    }
}

/// The first place where there is a file.
pub open spec fn first_existing<P>(places: Seq<Place<P>>) -> Option<P>
    decreases places.len(),
{
    if places.len() == 0 {
        None
    } else if places[0].is_file {
        Some(places[0].path)
    } else {
        first_existing(places.drop_first())
    }
}

/// Where a candidate is found.
pub open spec fn located<P>(candidate: Candidate<P>) -> Option<P> {
    if candidate.is_absolute {
        existing(candidate.place)
    } else {
        first_existing(candidate.on_path@)
    }
}

/// Where the first candidate that is found is found.
pub open spec fn first_located<P>(candidates: Seq<Candidate<P>>) -> Option<P>
    decreases candidates.len(),
{
    if candidates.len() == 0 {
        None
    } else if located(candidates[0]) is Some {
        located(candidates[0])
    } else {
        first_located(candidates.drop_first())
    }
}

/// The executable of VLC: the one that was asked for, or else the first of the candidates.
pub open spec fn vlc_path<P>(path: Option<Place<P>>, candidates: Seq<Candidate<P>>) -> Result<
    P,
    VlcError<P>,
> {
    match path {
        Some(place) => if place.is_file {
            Ok(place.path)
        } else {
            Err(VlcError::Missing(place.path))
        },
        None => match first_located(candidates) {
            Some(path) => Ok(path),
            None => Err(VlcError::NotFound),
        },
    }
}

/// Finds the first place where there is a file.
pub fn find_on_path<P>(places: &Vec<Place<P>>) -> (res: Option<&P>)
    ensures
        match res {
            Some(path) => first_existing(places@) == Some(*path),
            None => first_existing(places@) is None,
        },
{
    assert(places@.skip(0) == places@);
    for i in 0..places.len()
        invariant
            first_existing(places@) == first_existing(places@.skip(i as int)),
    {
        assert(places@.skip(i as int).drop_first() == places@.skip(i + 1));
        if places[i].is_file {
            return Some(&places[i].path);
        }
    }
    None
}

/// Finds the executable of VLC: the one that was asked for, which must exist, or else the first
/// of the candidates that exists.
pub fn resolve_vlc_path<'a, P>(
    path: Option<&'a Place<P>>,
    candidates: &'a Vec<Candidate<P>>,
) -> (res: Result<&'a P, VlcError<&'a P>>)
    ensures
        match vlc_path(
            match path {
                Some(place) => Some(*place),
                None => None,
            },
            candidates@,
        ) {
            Ok(path) => res == Ok::<&P, VlcError<&P>>(&path),
            Err(VlcError::Missing(path)) => res == Err::<&P, VlcError<&P>>(
                VlcError::Missing(&path),
            ),
            Err(VlcError::NotFound) => res == Err::<&P, VlcError<&P>>(VlcError::NotFound),
        },
{
    if let Some(place) = path {
        return if place.is_file {
            Ok(&place.path)
        } else {
            Err(VlcError::Missing(&place.path))
        };
    }
    assert(candidates@.skip(0) == candidates@);
    for i in 0..candidates.len()
        invariant
            first_located(candidates@) == first_located(candidates@.skip(i as int)),
            path is None,
    {
        assert(candidates@.skip(i as int).drop_first() == candidates@.skip(i + 1));
        let candidate: &Candidate<P> = &candidates[i];
        if candidate.is_absolute {
            if candidate.place.is_file {
                return Ok(&candidate.place.path);
            }
        } else {
            if let Some(found) = find_on_path(&candidate.on_path) {
                return Ok(found);
            }
        }
    }
    Err(VlcError::NotFound)
}

/// Checks that the executable of VLC can be found.
pub fn validate_vlc_path<'a, P>(
    path: Option<&'a Place<P>>,
    candidates: &'a Vec<Candidate<P>>,
) -> (res: Result<(), VlcError<&'a P>>)
    ensures
        match vlc_path(
            match path {
                Some(place) => Some(*place),
                None => None,
            },
            candidates@,
        ) {
            Ok(_) => res == Ok::<(), VlcError<&P>>(()),
            Err(VlcError::Missing(path)) => res == Err::<(), VlcError<&P>>(
                VlcError::Missing(&path),
            ),
            Err(VlcError::NotFound) => res == Err::<(), VlcError<&P>>(VlcError::NotFound),
        },
{
    match resolve_vlc_path(path, candidates) {
        Ok(_) => Ok(()),
        Err(error) => Err(error),
    }
}

impl<P> VlcError<P> {
    /// What the user is told, given how the path is shown.
    pub fn message(&self, shown: &str) -> (res: String)
        ensures
            res@ == match self {
                VlcError::Missing(_) => "VLC executable does not exist: "@ + shown@,
                VlcError::NotFound => "VLC was not found; install VLC or pass --vlc-path"@,
            },
    {
        match self {
            VlcError::Missing(_) => joined("VLC executable does not exist: ", shown),
            VlcError::NotFound => "VLC was not found; install VLC or pass --vlc-path".to_owned(),
        }
    }
}

/// What the path of a usual executable starts from.
#[derive(Clone, Copy, Debug, PartialEq, Eq, Structural)]
pub enum Base {
    /// Nothing: it is absolute, or looked for in the directories for executables.
    Unset,
    /// The directory in an environment variable. Without the variable there is no candidate.
    Home,
    ProgramFiles,
    ProgramFilesX86,
    LocalAppData,
}

impl Base {
    /// The environment variable that holds the directory.
    pub fn variable(self) -> (res: Option<&'static str>)
        ensures
            match res {
                None => self is Unset,
                Some(name) => !(self is Unset) && name@ == match self {
                    Base::Home => "HOME"@,
                    Base::ProgramFiles => "ProgramFiles"@,
                    Base::ProgramFilesX86 => "ProgramFiles(x86)"@,
                    _ => "LOCALAPPDATA"@,
                },
            },
    {
        match self {
            Base::Unset => None,
            Base::Home => Some("HOME"),
            Base::ProgramFiles => Some("ProgramFiles"),
            Base::ProgramFilesX86 => Some("ProgramFiles(x86)"),
            Base::LocalAppData => Some("LOCALAPPDATA"),
        }
    }
}

/// The usual executables of VLC, in the order in which they are tried.
pub open spec fn usual_executables(platform: Platform) -> Seq<(Base, Seq<char>)> {
    match platform {
        Platform::MacOs => seq![
            (Base::Unset, "/Applications/VLC.app/Contents/MacOS/VLC"@),
            (Base::Home, "Applications/VLC.app/Contents/MacOS/VLC"@),
            (Base::Unset, "vlc"@),
        ],
        Platform::Windows => seq![
            (Base::Unset, "vlc.exe"@),
            (Base::ProgramFiles, "VideoLAN/VLC/vlc.exe"@),
            (Base::ProgramFilesX86, "VideoLAN/VLC/vlc.exe"@),
            (Base::LocalAppData, "Programs/VideoLAN/VLC/vlc.exe"@),
            (Base::LocalAppData, "VideoLAN/VLC/vlc.exe"@),
        ],
        Platform::Other => seq![
            (Base::Unset, "vlc"@),
            (Base::Unset, "/usr/bin/vlc"@),
            (Base::Unset, "/usr/local/bin/vlc"@),
        ],
    }
}

/// The usual executables of VLC, in the order in which they are tried.
pub fn default_vlc_candidates(platform: Platform) -> (res: Vec<(Base, &'static str)>)
    ensures
        res@.map_values(|c: (Base, &'static str)| (c.0, c.1@)) == usual_executables(platform),
{
    let mut res: Vec<(Base, &'static str)> = Vec::new();
    match platform {
        Platform::MacOs => {
            res.push((Base::Unset, "/Applications/VLC.app/Contents/MacOS/VLC"));
            res.push((Base::Home, "Applications/VLC.app/Contents/MacOS/VLC"));
            res.push((Base::Unset, "vlc"));
        },
        Platform::Windows => {
            res.push((Base::Unset, "vlc.exe"));
            res.push((Base::ProgramFiles, "VideoLAN/VLC/vlc.exe"));
            res.push((Base::ProgramFilesX86, "VideoLAN/VLC/vlc.exe"));
            res.push((Base::LocalAppData, "Programs/VideoLAN/VLC/vlc.exe"));
            res.push((Base::LocalAppData, "VideoLAN/VLC/vlc.exe"));
        },
        Platform::Other => {
            res.push((Base::Unset, "vlc"));
            res.push((Base::Unset, "/usr/bin/vlc"));
            res.push((Base::Unset, "/usr/local/bin/vlc"));
        },
    }
    res
}

/// The arguments with which VLC is started. It must not hand the stream over to an instance that
/// is running already: the session lives as long as the process that is started for it.
pub fn vlc_arguments(url: &str) -> (res: Vec<String>)
    ensures
        res@.map_values(|argument: String| argument@) == seq!["--no-one-instance"@, url@],
{
    let mut res: Vec<String> = Vec::new();
    res.push("--no-one-instance".to_owned());
    res.push(url.to_owned());
    res
}

proof fn lemma_first_existing<P>(places: Seq<Place<P>>, at: int)
    requires
        0 <= at < places.len(),
        places[at].is_file,
    ensures
        first_existing(places) is Some,
    decreases places.len(),
{
    if !places[0].is_file {
        assert(places.drop_first()[at - 1] == places[at]);
        lemma_first_existing(places.drop_first(), at - 1);
    }
}

/// VLC is found wherever one of the candidates exists, unless another executable was asked for.
pub proof fn existing_candidates_are_found<P>(candidates: Seq<Candidate<P>>, at: int)
    requires
        0 <= at < candidates.len(),
        ({
            ||| candidates[at].is_absolute && candidates[at].place.is_file
            ||| !candidates[at].is_absolute && exists|i: int|
                0 <= i < candidates[at].on_path@.len() && (
                #[trigger] candidates[at].on_path@[i]).is_file
        }),
    ensures
        vlc_path(None, candidates) is Ok,
    decreases candidates.len(),
{
    if !candidates[at].is_absolute {
        let i = choose|i: int|
            0 <= i < candidates[at].on_path@.len() && (
            #[trigger] candidates[at].on_path@[i]).is_file;
        lemma_first_existing(candidates[at].on_path@, i);
    }
    if at > 0 && located(candidates[0]) is None {
        assert(candidates.drop_first()[at - 1] == candidates[at]);
        existing_candidates_are_found(candidates.drop_first(), at - 1);
    }
}

/// An executable that was asked for is the only one that is considered: it is taken if it exists,
/// and named in the error if it does not.
pub proof fn nothing_replaces_an_explicit_executable<P>(
    place: Place<P>,
    candidates: Seq<Candidate<P>>,
)
    ensures
        place.is_file ==> vlc_path(Some(place), candidates) == Ok::<P, VlcError<P>>(place.path),
        !place.is_file ==> vlc_path(Some(place), candidates) == Err::<P, VlcError<P>>(
            VlcError::Missing(place.path),
        ),
{
}

/// Whether a candidate exists, and where.
pub open spec fn stands_at<P>(candidate: Candidate<P>, path: P) -> bool {
    if candidate.is_absolute {
        candidate.place.is_file && path == candidate.place.path
    } else {
        exists|i: int|
            0 <= i < candidate.on_path@.len() && (#[trigger] candidate.on_path@[i]).is_file
                && candidate.on_path@[i].path == path && forall|j: int|
                0 <= j < i ==> !(#[trigger] candidate.on_path@[j]).is_file
    }
}

/// Whether a candidate does not exist anywhere.
pub open spec fn stands_nowhere<P>(candidate: Candidate<P>) -> bool {
    forall|path: P| !#[trigger] stands_at(candidate, path)
}

/// The executable that is found is one that exists: of the first candidate that exists anywhere,
/// where it is found first. Nothing is found only if no candidate exists.
pub proof fn the_first_existing_candidate_is_found<P>(candidates: Seq<Candidate<P>>)
    ensures
        match vlc_path(None, candidates) {
            Ok(path) => exists|k: int|
                #![trigger candidates[k]]
                0 <= k < candidates.len() && stands_at(candidates[k], path) && forall|l: int|
                    0 <= l < k ==> stands_nowhere(#[trigger] candidates[l]),
            Err(error) => error == VlcError::<P>::NotFound && forall|l: int|
                0 <= l < candidates.len() ==> stands_nowhere(#[trigger] candidates[l]),
        },
    decreases candidates.len(),
{
    if candidates.len() > 0 {
        lemma_located(candidates[0]);
        if located(candidates[0]) is None {
            let rest = candidates.drop_first();
            the_first_existing_candidate_is_found(rest);
            match first_located(rest) {
                Some(path) => {
                    let k = choose|k: int|
                        #![trigger rest[k]]
                        0 <= k < rest.len() && stands_at(rest[k], path) && forall|l: int|
                            0 <= l < k ==> stands_nowhere(#[trigger] rest[l]);
                    assert(candidates[k + 1] == rest[k]);
                    assert forall|l: int| 0 <= l < k + 1 implies stands_nowhere(
                        #[trigger] candidates[l],
                    ) by {
                        if l > 0 {
                            assert(candidates[l] == rest[l - 1]);
                        }
                    }
                },
                None => {
                    assert forall|l: int| 0 <= l < candidates.len() implies stands_nowhere(
                        #[trigger] candidates[l],
                    ) by {
                        if l > 0 {
                            assert(candidates[l] == rest[l - 1]);
                        }
                    }
                },
            }
        } else {
            assert(stands_at(candidates[0], located(candidates[0])->0));
        }
    }
}

proof fn lemma_located<P>(candidate: Candidate<P>)
    ensures
        match located(candidate) {
            Some(path) => stands_at(candidate, path),
            None => stands_nowhere(candidate),
        },
{
    if !candidate.is_absolute {
        lemma_first_place(candidate.on_path@);
    }
}

proof fn lemma_first_place<P>(places: Seq<Place<P>>)
    ensures
        match first_existing(places) {
            Some(path) => exists|i: int|
                0 <= i < places.len() && (#[trigger] places[i]).is_file && places[i].path == path
                    && forall|j: int| 0 <= j < i ==> !(#[trigger] places[j]).is_file,
            None => forall|i: int| 0 <= i < places.len() ==> !(#[trigger] places[i]).is_file,
        },
    decreases places.len(),
{
    if places.len() > 0 && !places[0].is_file {
        let rest = places.drop_first();
        lemma_first_place(rest);
        match first_existing(rest) {
            Some(path) => {
                let i = choose|i: int|
                    0 <= i < rest.len() && (#[trigger] rest[i]).is_file && rest[i].path == path
                        && forall|j: int| 0 <= j < i ==> !(#[trigger] rest[j]).is_file;
                assert(places[i + 1] == rest[i]);
                assert forall|j: int| 0 <= j < i + 1 implies !(#[trigger] places[j]).is_file by {
                    if j > 0 {
                        assert(!rest[j - 1].is_file);
                    }
                }
            },
            None => {
                assert forall|j: int| 0 <= j < places.len() implies !(
                #[trigger] places[j]).is_file by {
                    if j > 0 {
                        assert(!rest[j - 1].is_file);
                    }
                }
            },
        }
    }
}

/// Every usual executable is VLC: its path ends with the name that VLC has on the system. On every
/// system the directories for executables are searched, and what stands in the directory of a
/// variable is not absolute.
pub proof fn usual_executables_are_vlc(platform: Platform, i: int)
    requires
        0 <= i < usual_executables(platform).len(),
    ensures
        ({
            let (base, path) = usual_executables(platform)[i];
            &&& platform is Windows ==> "vlc.exe"@.is_suffix_of(path) && (base is Unset
                || base is ProgramFiles || base is ProgramFilesX86 || base is LocalAppData)
            &&& platform is MacOs ==> ("VLC"@.is_suffix_of(path) || path == "vlc"@) && (base is Unset
                || base is Home)
            &&& platform is Other ==> "vlc"@.is_suffix_of(path) && base is Unset
            &&& !(base is Unset) ==> path[0] != '/'
        }),
        usual_executables(platform).contains(
            (
                Base::Unset,
                if platform is Windows {
                    "vlc.exe"@
                } else {
                    "vlc"@
                },
            ),
        ),
{
    reveal_strlit("vlc");
    reveal_strlit("VLC");
    reveal_strlit("vlc.exe");
    reveal_strlit("/usr/bin/vlc");
    reveal_strlit("/usr/local/bin/vlc");
    reveal_strlit("VideoLAN/VLC/vlc.exe");
    reveal_strlit("Programs/VideoLAN/VLC/vlc.exe");
    reveal_strlit("/Applications/VLC.app/Contents/MacOS/VLC");
    reveal_strlit("Applications/VLC.app/Contents/MacOS/VLC");
    let all = usual_executables(platform);
    let (base, path) = all[i];
    match platform {
        Platform::MacOs => {
            assert(all[2] == (Base::Unset, "vlc"@));
            if i < 2 {
                assert("VLC"@ =~= path.subrange(path.len() - 3, path.len() as int));
            }
        },
        Platform::Windows => {
            assert(all[0] == (Base::Unset, "vlc.exe"@));
            assert("vlc.exe"@ =~= path.subrange(path.len() - 7, path.len() as int));
        },
        Platform::Other => {
            assert(all[0] == (Base::Unset, "vlc"@));
            assert("vlc"@ =~= path.subrange(path.len() - 3, path.len() as int));
        },
    }
}

} // verus!
