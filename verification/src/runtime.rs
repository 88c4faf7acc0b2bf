//! The decisions of a run: when it ends, and what becomes of the session.

use crate::paths::{endings_are_extensions, file_stem, file_stem_of};
use crate::session::{sanitize_name, sanitized};
use crate::text::{chars_of, part, same_text, string_of};
use vstd::prelude::*;

verus! {

/// How a run ends well.
#[derive(Clone, Copy, Debug, PartialEq, Eq, Structural)]
pub enum RunOutcome {
    PlaybackEnded,
    Interrupted,
}

/// Why a run ends badly.
#[derive(Clone, Copy, Debug, PartialEq, Eq, Structural)]
pub enum RunFault {
    /// The end of VLC could not be waited for.
    WaitFailed,
    /// VLC ended with an error.
    PlayerFailed,
    /// The signals of the user could not be waited for.
    SignalFailed,
    /// VLC could not be stopped.
    StopFailed,
    /// The torrent could not be read.
    StreamFailed,
}

/// What ends the wait for the end of a run.
#[derive(Clone, Copy, Debug, PartialEq, Eq, Structural)]
pub enum RunEvent {
    /// VLC has ended, without an error or not.
    PlayerExited { success: bool },
    /// The end of VLC could not be waited for.
    PlayerLost,
    /// The user wants to stop.
    Signal,
    /// The signals of the user could not be waited for.
    SignalLost,
    /// The torrent could not be read.
    StreamFailed,
}

/// Whether VLC has to be stopped after an event.
pub open spec fn stops_player(event: RunEvent) -> bool {
    event is Signal || event is StreamFailed
}

/// How a run ends after an event, given whether VLC could be stopped where it has to be.
pub open spec fn run_result(event: RunEvent, stopped: bool) -> Result<RunOutcome, RunFault> {
    match event {
        RunEvent::PlayerExited { success } => if success {
            Ok(RunOutcome::PlaybackEnded)
        } else {
            Err(RunFault::PlayerFailed)
        },
        RunEvent::PlayerLost => Err(RunFault::WaitFailed),
        RunEvent::Signal => if stopped {
            Ok(RunOutcome::Interrupted)
        } else {
            Err(RunFault::StopFailed)
        },
        RunEvent::SignalLost => Err(RunFault::SignalFailed),
        RunEvent::StreamFailed => if stopped {
            Err(RunFault::StreamFailed)
        } else {
            Err(RunFault::StopFailed)
        },
    }
}

/// Whether VLC has to be stopped after an event.
pub fn must_stop_player(event: RunEvent) -> (res: bool)
    ensures
        res == stops_player(event),
{
    match event {
        RunEvent::Signal | RunEvent::StreamFailed => true,
        _ => false,
    }
}

/// Ends a run after an event, given whether VLC could be stopped where it has to be. Without a
/// player there is nothing that could not be stopped.
pub fn end_run(event: RunEvent, stopped: bool) -> (res: Result<RunOutcome, RunFault>)
    ensures
        res == run_result(event, stopped),
{
    match event {
        RunEvent::PlayerExited { success } => if success {
            Ok(RunOutcome::PlaybackEnded)
        } else {
            Err(RunFault::PlayerFailed)
        },
        RunEvent::PlayerLost => Err(RunFault::WaitFailed),
        RunEvent::Signal => if stopped {
            Ok(RunOutcome::Interrupted)
        } else {
            Err(RunFault::StopFailed)
        },
        RunEvent::SignalLost => Err(RunFault::SignalFailed),
        RunEvent::StreamFailed => if stopped {
            Err(RunFault::StreamFailed)
        } else {
            Err(RunFault::StopFailed)
        },
    }
}

impl RunOutcome {
    /// What the user is told when a run has ended well.
    pub fn notice(self) -> (res: &'static str)
        ensures
            res@ == match self {
                RunOutcome::PlaybackEnded => "\nPlayback ended."@,
                RunOutcome::Interrupted => "\nStopping playback."@,
            },
    {
        match self {
            RunOutcome::PlaybackEnded => "\nPlayback ended.",
            RunOutcome::Interrupted => "\nStopping playback.",
        }
    }
}

/// The directory for preserved data: the one that was asked for, or else the one for videos, or
/// else the fallback, if there is one.
pub fn output_root<P>(output: Option<P>, videos: Option<P>, fallback: Option<P>) -> (res: Option<P>)
    ensures
        res == match output {
            Some(path) => Some(path),
            None => match videos {
                Some(path) => Some(path),
                None => fallback,
            },
        },
{
    match output {
        Some(path) => Some(path),
        None => match videos {
            Some(path) => Some(path),
            None => fallback,
        },
    }
}

/// How a session is shut down after a run.
#[derive(Debug, PartialEq, Eq)]
pub enum ShutdownPlan<P> {
    /// Its data is removed.
    Remove,
    /// Its data is moved into this directory.
    Preserve(P),
    /// Its data is removed, and the user is told that there was no directory for it.
    RemoveAndFail,
}

/// How a session is shut down: the data is preserved only after a run that has ended well, if
/// that was asked for, and if there is a directory for it.
pub open spec fn shutdown_plan<P>(succeeded: bool, keep: bool, output_root: Option<P>) -> ShutdownPlan<
    P,
> {
    if succeeded && keep {
        match output_root {
            Some(path) => ShutdownPlan::Preserve(path),
            None => ShutdownPlan::RemoveAndFail,
        }
    } else {
        ShutdownPlan::Remove
    }
}

/// Decides how a session is shut down after a run.
pub fn plan_shutdown<P>(succeeded: bool, keep: bool, output_root: Option<P>) -> (res: ShutdownPlan<
    P,
>)
    ensures
        res == shutdown_plan(succeeded, keep, output_root),
{
    if succeeded && keep {
        match output_root {
            Some(path) => ShutdownPlan::Preserve(path),
            None => ShutdownPlan::RemoveAndFail,
        }
    } else {
        ShutdownPlan::Remove
    }
}

/// What is done with the directory of a session while it is shut down.
#[derive(Debug, PartialEq, Eq)]
pub enum GuardAction<P> {
    /// Nothing: there is none.
    Nothing,
    /// It is removed.
    Cleanup,
    /// Its data is moved into this directory, and the rest is removed.
    Preserve(P),
    /// Nothing: its data is to be preserved, but there is no directory for it.
    MissingOutput,
}

/// What is done with the directory of a session while it is shut down.
pub open spec fn guard_action_of<P>(
    has_guard: bool,
    preserve: bool,
    output_root: Option<P>,
) -> GuardAction<P> {
    if !has_guard {
        GuardAction::Nothing
    } else if !preserve {
        GuardAction::Cleanup
    } else {
        match output_root {
            Some(path) => GuardAction::Preserve(path),
            None => GuardAction::MissingOutput,
        }
    }
}

/// Decides what is done with the directory of a session while it is shut down.
pub fn guard_action<P>(has_guard: bool, preserve: bool, output_root: Option<P>) -> (res:
    GuardAction<P>)
    ensures
        res == guard_action_of(has_guard, preserve, output_root),
{
    if !has_guard {
        return GuardAction::Nothing;
    }
    if !preserve {
        return GuardAction::Cleanup;
    }
    match output_root {
        Some(path) => GuardAction::Preserve(path),
        None => GuardAction::MissingOutput,
    }
}

/// The result of a shutdown: the error of the server, if there is one, before that of the session.
pub fn shutdown_result<T, E>(server_error: Option<E>, result: Result<T, E>) -> (res: Result<T, E>)
    ensures
        match server_error {
            Some(error) => res == Err::<T, E>(error),
            None => res == result,
        },
{
    match server_error {
        Some(error) => Err(error),
        None => result,
    }
}

/// What is done with the directory of a session after a run.
pub open spec fn directory_action<P>(
    succeeded: bool,
    keep: bool,
    output_root: Option<P>,
) -> GuardAction<P> {
    match shutdown_plan(succeeded, keep, output_root) {
        ShutdownPlan::Preserve(path) => guard_action_of(true, true, Some(path)),
        ShutdownPlan::Remove | ShutdownPlan::RemoveAndFail => guard_action_of(true, false, None),
    }
}

/// The data of a session is preserved exactly if the run has ended well, that was asked for, and
/// there is a directory for it; it goes into that directory. Otherwise it is removed.
pub proof fn data_is_preserved_only_on_request<P>(
    succeeded: bool,
    keep: bool,
    output_root: Option<P>,
)
    ensures
        directory_action(succeeded, keep, output_root) == if succeeded && keep && output_root is Some {
            GuardAction::Preserve(output_root->0)
        } else {
            GuardAction::Cleanup
        },
{
}

/// The start of a text, with at most `count` characters.
pub open spec fn start_of(s: Seq<char>, count: nat) -> Seq<char> {
    if s.len() < count {
        s
    } else {
        s.take(count as int)
    }
}

/// The name that preserved data is recognised by: that of the torrent, unless it says nothing,
/// and otherwise that of the file.
pub open spec fn display_name(torrent_name: Seq<char>, path: Seq<char>) -> Seq<char> {
    let name = sanitized(torrent_name);
    if name.len() == 0 || name == "torrent"@ {
        match file_stem(path) {
            Some(stem) => sanitized(stem),
            None => sanitized("media"@),
        }
    } else {
        name
    }
}

/// The name of preserved data: what it is recognised by, and the start of the hash of the torrent.
pub fn persistent_name(torrent_name: &str, path: &str, info_hash: &str) -> (res: String)
    ensures
        res@ == display_name(torrent_name@, path@) + "-"@ + start_of(info_hash@, 8),
{
    let safe_torrent_name: String = sanitize_name(torrent_name);
    let safe_selected_name: String = match file_stem_of(&chars_of(path)) {
        Some(stem) => sanitize_name(string_of(&stem).as_str()),
        None => sanitize_name("media"),
    };
    let mut res: String = if safe_torrent_name.as_str().is_empty() || same_text(
        safe_torrent_name.as_str(),
        "torrent",
    ) {
        safe_selected_name
    } else {
        safe_torrent_name
    };
    let hash: Vec<char> = chars_of(info_hash);
    let count: usize = if hash.len() < 8 {
        hash.len()
    } else {
        8
    };
    let short_hash: Vec<char> = part(&hash, 0, count);
    assert(short_hash@ == start_of(info_hash@, 8));
    res.append("-");
    res.append(string_of(&short_hash).as_str());
    res
}

/// The name of preserved data if the run ended before the torrent was known.
pub fn preserved_name(persistent_name: Option<&str>) -> (res: &str)
    ensures
        match persistent_name {
            Some(name) => res@ == name@,
            None => res@ == "torrent-vlc-session"@,
        },
{
    match persistent_name {
        Some(name) => name,
        None => "torrent-vlc-session",
    }
}

/// What is logged unless the environment says otherwise.
pub fn default_log_filter(verbose: bool) -> (res: &'static str)
    ensures
        res@ == if verbose {
            "torrent_vlc=debug,librqbit=info"@
        } else {
            "torrent_vlc=info,librqbit=warn"@
        },
{
    if verbose {
        "torrent_vlc=debug,librqbit=info"
    } else {
        "torrent_vlc=info,librqbit=warn"
    }
}

/// A run ends well exactly if VLC ends without an error, or if the user wants to stop and VLC can
/// be stopped. Otherwise the fault is the one that happened.
pub proof fn runs_end_well_for_two_reasons(event: RunEvent, stopped: bool)
    ensures
        run_result(event, stopped) == Ok::<RunOutcome, RunFault>(RunOutcome::PlaybackEnded) <==> event
            == (RunEvent::PlayerExited { success: true }),
        run_result(event, stopped) == Ok::<RunOutcome, RunFault>(RunOutcome::Interrupted) <==> event
            == RunEvent::Signal && stopped,
        run_result(event, stopped) matches Err(fault) ==> match fault {
            RunFault::WaitFailed => event == RunEvent::PlayerLost,
            RunFault::PlayerFailed => event == (RunEvent::PlayerExited { success: false }),
            RunFault::SignalFailed => event == RunEvent::SignalLost,
            RunFault::StopFailed => !stopped && (event == RunEvent::Signal || event
                == RunEvent::StreamFailed),
            RunFault::StreamFailed => stopped && event == RunEvent::StreamFailed,
        },
{
}

/// VLC is stopped exactly if it has not ended by itself and nothing went wrong in waiting: when
/// the user wants to stop, or the stream has failed.
pub proof fn only_a_running_player_is_stopped(event: RunEvent)
    ensures
        stops_player(event) <==> event == RunEvent::Signal || event == RunEvent::StreamFailed,
{
}

/// There is a plan to fail only if data was to be preserved after a good run and there is no
/// directory for it.
pub proof fn shutdowns_fail_without_a_directory<P>(
    succeeded: bool,
    keep: bool,
    output_root: Option<P>,
)
    ensures
        shutdown_plan(succeeded, keep, output_root) == ShutdownPlan::<P>::RemoveAndFail <==> succeeded
            && keep && output_root is None,
        guard_action_of(true, true, output_root) == GuardAction::<P>::MissingOutput <==> output_root
            is None,
        guard_action_of(false, keep, output_root) == GuardAction::<P>::Nothing,
{
}

/// Preserved data is named after the torrent if its name says something, and otherwise after the
/// file, without its extension.
pub proof fn data_is_named_after_torrent_or_file(
    torrent_name: Seq<char>,
    directory: Seq<char>,
    stem: Seq<char>,
    ending: Seq<char>,
)
    requires
        stem.len() > 0 && !stem.contains('/'),
        ending.len() > 0 && !ending.contains('/') && !ending.contains('.'),
    ensures
        ({
            let path = directory + seq!['/'] + stem + seq!['.'] + ending;
            let plain = stem + seq!['.'] + ending;
            let name = sanitized(torrent_name);
            &&& name.len() > 0 && name != "torrent"@ ==> display_name(torrent_name, path) == name
                && display_name(torrent_name, plain) == name
            &&& name.len() == 0 || name == "torrent"@ ==> display_name(torrent_name, path)
                == sanitized(stem) && display_name(torrent_name, plain) == sanitized(stem)
        }),
{
    endings_are_extensions(directory, stem, ending);
}

/// The start of a text is its longest prefix with at most the given number of characters.
pub proof fn starts_are_prefixes(s: Seq<char>, count: nat)
    ensures
        start_of(s, count).is_prefix_of(s),
        start_of(s, count).len() <= count,
        start_of(s, count).len() == count || start_of(s, count) == s,
{
}

} // verus!
