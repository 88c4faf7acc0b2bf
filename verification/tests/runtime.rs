use torrent_vlc::runtime::{
    default_log_filter, end_run, guard_action, must_stop_player, output_root, persistent_name,
    plan_shutdown, preserved_name, shutdown_result, GuardAction, RunEvent, RunFault, RunOutcome,
    ShutdownPlan,
};

#[test]
fn events_end_the_run() {
    let cases = [
        (RunEvent::PlayerExited { success: true }, false, Ok(RunOutcome::PlaybackEnded)),
        (RunEvent::PlayerExited { success: false }, false, Err(RunFault::PlayerFailed)),
        (RunEvent::PlayerLost, false, Err(RunFault::WaitFailed)),
        (RunEvent::Signal, true, Ok(RunOutcome::Interrupted)),
        (RunEvent::SignalLost, false, Err(RunFault::SignalFailed)),
        (RunEvent::StreamFailed, true, Err(RunFault::StreamFailed)),
    ];
    for (event, stops, result) in cases {
        assert_eq!(must_stop_player(event), stops);
        assert_eq!(end_run(event, true), result);
        let unstopped = if stops { Err(RunFault::StopFailed) } else { result };
        assert_eq!(end_run(event, false), unstopped);
    }
    assert_eq!(RunOutcome::PlaybackEnded.notice(), "\nPlayback ended.");
    assert_eq!(RunOutcome::Interrupted.notice(), "\nStopping playback.");
}

#[test]
fn data_is_preserved_only_on_request() {
    assert_eq!(plan_shutdown(true, true, Some("v")), ShutdownPlan::Preserve("v"));
    assert_eq!(plan_shutdown(true, true, None::<&str>), ShutdownPlan::RemoveAndFail);
    assert_eq!(plan_shutdown(true, false, Some("v")), ShutdownPlan::Remove);
    assert_eq!(plan_shutdown(false, true, Some("v")), ShutdownPlan::Remove);
    assert_eq!(guard_action(false, true, Some("v")), GuardAction::Nothing);
    assert_eq!(guard_action(true, false, Some("v")), GuardAction::Cleanup);
    assert_eq!(guard_action(true, true, Some("v")), GuardAction::Preserve("v"));
    assert_eq!(guard_action(true, true, None::<&str>), GuardAction::MissingOutput);
}

#[test]
fn the_first_error_of_a_shutdown_is_told() {
    assert_eq!(shutdown_result(Some("a"), Err::<u8, &str>("b")), Err("a"));
    assert_eq!(shutdown_result(Some("a"), Ok(1)), Err("a"));
    assert_eq!(shutdown_result(None::<&str>, Ok(1)), Ok(1));
    assert_eq!(shutdown_result(None, Err::<u8, &str>("b")), Err("b"));
}

#[test]
fn output_goes_where_it_was_asked_for() {
    assert_eq!(output_root(Some(1), Some(2), Some(3)), Some(1));
    assert_eq!(output_root(None, Some(2), Some(3)), Some(2));
    assert_eq!(output_root(None, None, Some(3)), Some(3));
    assert_eq!(output_root(None::<u8>, None, None), None);
}

#[test]
fn preserved_data_is_named_after_the_torrent() {
    let hash = "0123456789abcdef";
    assert_eq!(persistent_name("My Show", "d/e.mkv", hash), "My_Show-01234567");
    assert_eq!(persistent_name("torrent", "d/Episode 1.mkv", hash), "Episode_1-01234567");
    assert_eq!(persistent_name("...", "d/e.mkv", "ab"), "e-ab");
    assert_eq!(persistent_name("", "..", hash), "media-01234567");
    assert_eq!(preserved_name(Some("x")), "x");
    assert_eq!(preserved_name(None), "torrent-vlc-session");
}

#[test]
fn logging_is_louder_on_request() {
    assert_eq!(default_log_filter(true), "torrent_vlc=debug,librqbit=info");
    assert_eq!(default_log_filter(false), "torrent_vlc=info,librqbit=warn");
}
