//! Temporary sessions: their names, their life cycle, and what becomes of their data.

pub mod recovery;

use crate::numbers::{decimal, decimal_injective, decimal_text, lemma_decimal};
use crate::paths::{is_downwards, leads_downwards};
use crate::platform::{has_drive, slashed, starts_with_drive, with_slashes, Platform};
use crate::text::{
    alphanumeric, chars_of, is_alphanumeric, joined, leading, lemma_leading, lemma_strip,
    lemma_strip_fixed, lemma_trailing, string_of, strip, strip_start, stripped, CharSet,
};
use vstd::prelude::*;

verus! {

/// The longest name that is kept.
pub const NAME_LIMIT: usize = 80;

/// The number of names that are tried for preserved data.
pub const NAME_ATTEMPTS: u32 = 10_000;

/// The directory of a session that holds the torrent and the choice of a file.
pub const METADATA_DIRECTORY: &'static str = "metadata";

/// The directory of a session that holds the downloaded data.
pub const DATA_DIRECTORY: &'static str = "data";

/// The file by whose lock a process owns a session.
pub const LOCK_FILE: &'static str = "session.lock";

/// The file that describes a session.
pub const SESSION_FILE: &'static str = "session.json";

/// Whether a character can stand in the name of a file on every system.
pub open spec fn is_safe(c: char) -> bool {
    is_alphanumeric(c) || c == '-' || c == '_' || c == '.'
}

/// The character itself if it is safe, and an underscore otherwise.
pub open spec fn safe_char(c: char) -> char {
    if is_safe(c) {
        c
    } else {
        '_'
    }
}

/// The start of a text, as far as it is kept, with safe characters only.
pub open spec fn safe_start(s: Seq<char>) -> Seq<char> {
    (if s.len() < NAME_LIMIT {
        s
    } else {
        s.take(NAME_LIMIT as int)
    }).map_values(|c: char| safe_char(c))
}

/// The name that is made of a text.
pub open spec fn sanitized(s: Seq<char>) -> Seq<char> {
    strip(safe_start(s), CharSet::Punctuation)
}

/// Makes a name of a text: its first characters, with underscores for those that are not safe,
/// and without dots, underscores and hyphens at either end.
pub fn sanitize_name(value: &str) -> (res: String)
    ensures
        res@ == sanitized(value@),
{
    let chars: Vec<char> = chars_of(value);
    let count: usize = if chars.len() < NAME_LIMIT {
        chars.len()
    } else {
        NAME_LIMIT
    };
    let mut start: Vec<char> = Vec::new();
    for i in 0..count
        invariant
            count <= chars@.len(),
            start@ == chars@.take(i as int).map_values(|c: char| safe_char(c)),
    {
        let c: char = chars[i];
        if alphanumeric(c) || c == '-' || c == '_' || c == '.' {
            start.push(c);
        } else {
            start.push('_');
        }
        assert(start@ == chars@.take(i + 1).map_values(|c: char| safe_char(c)));
    }
    assert(start@ == safe_start(value@));
    string_of(&stripped(&start, CharSet::Punctuation))
}

/// A name is short, holds safe characters only, and starts and ends with a letter or a digit.
pub proof fn names_are_safe(s: Seq<char>)
    ensures
        sanitized(s).len() <= NAME_LIMIT,
        forall|i: int| 0 <= i < sanitized(s).len() ==> is_safe(#[trigger] sanitized(s)[i]),
        sanitized(s).len() > 0 ==> is_alphanumeric(sanitized(s)[0]) && is_alphanumeric(
            sanitized(s).last(),
        ),
{
    let start = safe_start(s);
    let from = leading(start, CharSet::Punctuation) as int;
    lemma_leading(start, CharSet::Punctuation);
    lemma_strip(start, CharSet::Punctuation);
    assert forall|i: int| 0 <= i < sanitized(s).len() implies is_safe(
        #[trigger] sanitized(s)[i],
    ) by {
        assert(sanitized(s)[i] == start[from + i]);
        assert(start[from + i] == safe_char(s[from + i]));
    }
}

/// Making a name of a name changes nothing.
pub proof fn names_stay_as_they_are(s: Seq<char>)
    ensures
        sanitized(sanitized(s)) == sanitized(s),
{
    names_are_safe(s);
    let name = sanitized(s);
    assert(safe_start(name) == name);
    lemma_strip_fixed(name, CharSet::Punctuation);
}

/// The name of the directory of a session.
pub fn session_name(session_id: &str) -> (res: String)
    ensures
        res@ == "session-"@ + session_id@,
{
    joined("session-", session_id)
}

/// Whether a file can be written into the directory for metadata under the given name, which
/// must lead downwards on the given system.
pub fn accepts_metadata_key(key: &str, platform: Platform) -> (res: bool)
    ensures
        res == (!has_drive(key@, platform) && leads_downwards(slashed(key@, platform))),
{
    !starts_with_drive(key, platform) && is_downwards(with_slashes(key, platform).as_str())
}

/// The directory of a session, as long as it exists, and the lock by which a process owns it.
#[derive(Debug)]
pub struct SessionGuard<P, L> {
    pub path: Option<P>,
    pub lock: Option<L>,
}

/// What there is to do when a session is to end.
#[derive(Debug)]
pub enum Ending<L> {
    /// Nothing: it has ended.
    Finalized,
    /// The lock is to be released, and then the data to be moved away or removed.
    Open(Option<L>),
}

impl<P, L> SessionGuard<P, L> {
    /// Whether the session has ended.
    pub open spec fn finalized(self) -> bool {
        self.path is None
    }

    /// The session after its lock was given up.
    pub open spec fn unlocked(self) -> Self {
        SessionGuard { path: self.path, lock: None }
    }

    /// The session after its directory was removed or not.
    pub open spec fn after_removal(self, removed: bool) -> Self {
        SessionGuard {
            path: if removed {
                None
            } else {
                self.path
            },
            lock: self.lock,
        }
    }

    /// A new session.
    pub fn create(path: P, lock: L) -> (res: Self)
        ensures
            res == (SessionGuard { path: Some(path), lock: Some(lock) }),
    {
        SessionGuard { path: Some(path), lock: Some(lock) }
    }

    /// The directory of a session that has not ended.
    pub fn path(&self) -> (res: &P)
        requires
            !self.finalized(),
        ensures
            self.path == Some(*res),
    {
        match &self.path {
            Some(path) => path,
            None => vstd::pervasive::unreached(),
        }
    }

    /// Whether the session has ended.
    pub fn is_finalized(&self) -> (res: bool)
        ensures
            res == self.finalized(),
    {
        self.path.is_none()
    }

    /// Gives up the lock of a session that has not ended, before its directory is touched.
    pub fn begin_ending(&mut self) -> (res: Ending<L>)
        ensures
            old(self).finalized() ==> res == Ending::<L>::Finalized && *final(self) == *old(self),
            !old(self).finalized() ==> res == Ending::<L>::Open(old(self).lock) && *final(self)
                == old(self).unlocked(),
    {
        if self.path.is_none() {
            return Ending::Finalized;
        }
        Ending::Open(self.lock.take())
    }

    /// Ends the session if its directory is gone.
    pub fn finish_ending(&mut self, removed: bool)
        ensures
            *final(self) == old(self).after_removal(removed),
    {
        if removed {
            self.path = None;
        }
    }

    /// Ends the session at once. The result is the directory that is still to be removed, and the
    /// lock that is to be released before.
    pub fn abandon(&mut self) -> (res: Option<(P, Option<L>)>)
        ensures
            final(self).finalized(),
            match old(self).path {
                Some(path) => res == Some((path, old(self).lock)) && final(self).lock is None,
                None => res is None && *final(self) == *old(self),
            },
    {
        match self.path.take() {
            Some(path) => Some((path, self.lock.take())),
            None => None,
        }
    }
}

/// A session whose directory was removed is at its end; one whose directory could not be removed
/// still knows it, without a lock, so that the removal can be tried again.
pub proof fn sessions_end_with_their_directory<P, L>(guard: SessionGuard<P, L>)
    requires
        !guard.finalized(),
    ensures
        guard.unlocked().after_removal(true).finalized(),
        guard.unlocked().after_removal(false) == guard.unlocked(),
        guard.unlocked().path == guard.path,
        guard.unlocked().lock is None,
{
}

/// The search for an unused name for preserved data.
#[derive(Debug)]
pub struct DestinationSearch {
    pub base: String,
    pub attempt: u32,
}

/// The name that is tried in a given attempt: the base, and then the base with numbers behind it.
pub open spec fn destination_name(base: Seq<char>, attempt: u32) -> Seq<char> {
    if attempt == 0 {
        base
    } else {
        base + "-"@ + decimal(attempt as nat)
    }
}

/// What the names for preserved data start with.
pub open spec fn destination_base(name: Seq<char>) -> Seq<char> {
    if name.len() == 0 {
        "torrent"@
    } else {
        name
    }
}

impl DestinationSearch {
    /// Starts the search for a name like the given one.
    pub fn new(name: &str) -> (res: DestinationSearch)
        ensures
            res.base@ == destination_base(name@),
            res.attempt == 0,
    {
        let base: String = if name.is_empty() {
            "torrent".to_owned()
        } else {
            name.to_owned()
        };
        DestinationSearch { base, attempt: 0 }
    }

    /// The name to try next; `None` when all were tried.
    pub fn candidate(&self) -> (res: Option<String>)
        ensures
            res is Some <==> self.attempt < NAME_ATTEMPTS,
            res matches Some(name) ==> name@ == destination_name(self.base@, self.attempt),
    {
        if self.attempt >= NAME_ATTEMPTS {
            return None;
        }
        if self.attempt == 0 {
            return Some(self.base.clone());
        }
        let mut name = self.base.clone();
        name.append("-");
        name.append(decimal_text(self.attempt as u64).as_str());
        Some(name)
    }

    /// Takes note that the name is in use.
    pub fn reject(&mut self)
        requires
            old(self).attempt < NAME_ATTEMPTS,
        ensures
            final(self).base == old(self).base,
            final(self).attempt == old(self).attempt + 1,
    {
        self.attempt = self.attempt + 1;
    }
}

/// No name is tried twice.
pub proof fn destination_names_differ(base: Seq<char>, a: u32, b: u32)
    requires
        destination_name(base, a) == destination_name(base, b),
    ensures
        a == b,
{
    reveal_strlit("-");
    lemma_decimal(a as nat);
    lemma_decimal(b as nat);
    if a != 0 && b != 0 {
        let from = (base + "-"@).len() as int;
        assert(destination_name(base, a).skip(from) == decimal(a as nat));
        assert(destination_name(base, b).skip(from) == decimal(b as nat));
        decimal_injective(a as nat, b as nat);
    }
}

/// Preserved data always gets a name that is not empty, starts with a letter or a digit, and
/// holds safe characters only: it lies in the output directory itself.
pub proof fn destination_names_are_safe(name: Seq<char>, attempt: u32)
    ensures
        ({
            let chosen = destination_name(destination_base(sanitized(name)), attempt);
            &&& chosen.len() > 0
            &&& is_alphanumeric(chosen[0])
            &&& forall|i: int| 0 <= i < chosen.len() ==> is_safe(#[trigger] chosen[i])
            &&& !chosen.contains('/')
        }),
{
    names_are_safe(name);
    reveal_strlit("torrent");
    reveal_strlit("-");
    lemma_decimal(attempt as nat);
    let base = destination_base(sanitized(name));
    let chosen = destination_name(base, attempt);
    assert forall|i: int| 0 <= i < base.len() implies is_safe(#[trigger] base[i]) by {
    }
    assert forall|i: int| 0 <= i < chosen.len() implies is_safe(#[trigger] chosen[i]) by {
        if i < base.len() {
            assert(chosen[i] == base[i]);
        } else if i > base.len() {
            assert(chosen[i] == decimal(attempt as nat)[i - base.len() - 1]);
        }
    }
}

/// A name is a stretch of the start of the text it is made of: safe characters stand in it as they
/// are, others as underscores, and what is left out at either end would be a dot, an underscore or
/// a hyphen.
pub proof fn names_keep_what_is_safe(s: Seq<char>) -> (from: int)
    ensures
        ({
            let name = sanitized(s);
            let count = if s.len() < 80 {
                s.len() as int
            } else {
                80
            };
            &&& 0 <= from
            &&& from + name.len() <= count
            &&& forall|i: int|
                0 <= i < name.len() ==> #[trigger] name[i] == if is_safe(s[from + i]) {
                    s[from + i]
                } else {
                    '_'
                }
            &&& forall|j: int|
                #![trigger s[j]]
                (0 <= j < from || from + name.len() <= j < count) ==> !is_safe(s[j]) || s[j] == '.'
                    || s[j] == '_' || s[j] == '-'
        }),
{
    let set = CharSet::Punctuation;
    let start = safe_start(s);
    let name = sanitized(s);
    lemma_leading(start, set);
    lemma_strip(start, set);
    let from = leading(start, set) as int;
    let t = strip_start(start, set);
    lemma_trailing(t, set);
    assert forall|i: int| 0 <= i < name.len() implies #[trigger] name[i] == if is_safe(
        s[from + i],
    ) {
        s[from + i]
    } else {
        '_'
    } by {
        assert(name[i] == start[from + i]);
        assert(start[from + i] == safe_char(s[from + i]));
    }
    assert forall|j: int|
        #![trigger s[j]]
        (0 <= j < from || from + name.len() <= j < start.len()) implies !is_safe(s[j]) || s[j]
        == '.' || s[j] == '_' || s[j] == '-' by {
        assert(start[j] == safe_char(s[j]));
        if j >= from {
            assert(t[j - from] == start[j]);
            assert(set.has(t[j - from]));
        }
    }
    from
}

/// The characters that stay in names are the letters and digits of ASCII, hyphens, underscores
/// and dots.
pub proof fn safe_characters(c: char)
    ensures
        is_safe(c) <==> 97 <= c as int <= 122 || 65 <= c as int <= 90 || 48 <= c as int <= 57 || c
            == '-' || c == '_' || c == '.',
{
}

/// A text that is short, safe, and starts and ends with a letter or a digit is its own name.
pub proof fn good_names_are_kept(s: Seq<char>)
    requires
        0 < s.len() <= 80,
        forall|i: int| 0 <= i < s.len() ==> is_safe(#[trigger] s[i]),
        is_alphanumeric(s[0]) && is_alphanumeric(s.last()),
    ensures
        sanitized(s) == s,
{
    assert(safe_start(s) == s);
    lemma_strip_fixed(s, CharSet::Punctuation);
}

/// The first name that is tried is the wanted one, or `torrent` if there is none; the ones that
/// follow are that name with a hyphen and the number of the attempt.
pub proof fn wanted_names_are_tried_first(name: Seq<char>, attempt: u32)
    ensures
        name.len() > 0 ==> destination_name(destination_base(name), 0) == name,
        name.len() == 0 ==> destination_name(destination_base(name), 0) == "torrent"@,
        attempt > 0 ==> destination_name(destination_base(name), attempt) == destination_name(
            destination_base(name),
            0,
        ) + "-"@ + decimal(attempt as nat),
{
}

} // verus!
