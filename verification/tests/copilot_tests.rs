use ce_editor::copilot::{first_poll_interval, poll_step, PollReply, PollStep};

fn answer(error: Option<&str>, token: Option<&str>) -> PollReply {
    PollReply::Answer { error: error.map(|s| s.to_string()), access_token: token.map(|s| s.to_string()) }
}

#[test]
fn first_wait_is_at_least_five_seconds() {
    assert_eq!(first_poll_interval(0), 5);
    assert_eq!(first_poll_interval(9), 9);
}

#[test]
fn pending_and_slow_down_keep_polling() {
    assert!(matches!(poll_step(5, false, answer(Some("authorization_pending"), None)), PollStep::Wait(5)));
    assert!(matches!(poll_step(5, false, answer(Some("slow_down"), None)), PollStep::Wait(10)));
    assert!(matches!(poll_step(7, false, PollReply::Unreadable), PollStep::Wait(7)));
}

#[test]
fn token_errors_and_timeouts_stop() {
    match poll_step(5, false, answer(None, Some("tok"))) {
        PollStep::Done(Ok(t)) => assert_eq!(t, "tok"),
        _ => panic!("expected a token"),
    }
    match poll_step(5, false, answer(Some("access_denied"), None)) {
        PollStep::Done(Err(m)) => assert_eq!(m, "Auth error: access_denied"),
        _ => panic!("expected a failure"),
    }
    match poll_step(5, false, answer(None, None)) {
        PollStep::Done(Err(m)) => assert_eq!(m, "No token received"),
        _ => panic!("expected a failure"),
    }
    match poll_step(5, true, answer(None, Some("tok"))) {
        PollStep::Done(Err(m)) => assert_eq!(m, "Copilot auth timed out"),
        _ => panic!("expected a timeout"),
    }
}

fn bare_editor() -> ce_editor::editor::Editor {
    ce_editor::editor::Editor::new(
        None,
        Ok(None),
        "",
        vec![],
        vec![],
        ce_editor::gutter::GutterConfig {
            line_numbers_enabled: false,
            relative_line_numbers: false,
            git_gutter_enabled: false,
            bookmarks_enabled: false,
        },
        false,
        false,
    )
    .unwrap()
}

#[test]
fn sign_in_starts_only_when_enabled_and_idle() {
    let mut ed = bare_editor();
    assert!(!ed.copilot_auth_start(false, false));
    assert_eq!(ed.status_msg, "Copilot is disabled. Set copilot_enabled: true in config.");
    assert!(!ed.copilot_auth_start(true, true));
    assert_eq!(ed.status_msg, "Copilot auth already in progress...");
    assert!(ed.copilot_auth_start(true, false));
    assert_eq!(ed.status_msg, "Requesting Copilot device code...");
}
