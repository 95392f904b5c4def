use tbunread::count::{CountError, Visit};
use tbunread::monitor::{
    client_running, is_client, on_change, on_signal, sight, update_and_log, update_count, Action,
    Change, MonitorError, Presence, Reaction, Sighting, Signal, Verdict, CLIENT_NAME,
    DEBOUNCE_SECONDS, UNKNOWN,
};
use tbunread::path::Component;
use tbunread::settings::{write_count, Emission, Settings};

fn settings(quiet: bool, output: Option<&str>) -> Settings {
    Settings { quiet, output: output.map(|p| p.to_string()), interval: 5 }
}

fn root() -> Vec<Component> {
    vec![Component::RootDir, Component::Normal("mail".to_string())]
}

fn file(account: &str, folder: &str, text: &str) -> Visit {
    let mut path = root();
    path.push(Component::Normal(account.to_string()));
    path.push(Component::Normal(folder.to_string()));
    Visit::File {
        path,
        shown: format!("/mail/{}/{}", account, folder),
        contents: Ok(text.to_string()),
    }
}

fn run(sightings: &[Sighting]) -> Vec<Action> {
    let mut state = Presence::start();
    let mut actions = Vec::new();
    for sighting in sightings {
        let (next, action) = state.observe(*sighting);
        state = next;
        actions.push(action);
    }
    actions
}

#[test]
fn constants_are_what_the_client_and_the_sink_expect() {
    assert_eq!(CLIENT_NAME, "thunderbird");
    assert_eq!(UNKNOWN, "???");
    assert_eq!(DEBOUNCE_SECONDS, 2);
}

#[test]
fn start_counts_the_client_as_running() {
    assert_eq!(Presence::start(), Presence { running: true, first: true });
}

#[test]
fn first_look_with_client_running_refreshes() {
    assert_eq!(run(&[Sighting::Running]), vec![Action::Refresh]);
}

#[test]
fn first_look_with_client_stopped_emits_unknown() {
    assert_eq!(run(&[Sighting::Stopped]), vec![Action::EmitUnknown]);
}

#[test]
fn steady_states_do_nothing() {
    assert_eq!(
        run(&[Sighting::Running, Sighting::Running, Sighting::Running]),
        vec![Action::Refresh, Action::Idle, Action::Idle]
    );
    assert_eq!(
        run(&[Sighting::Stopped, Sighting::Stopped, Sighting::Stopped]),
        vec![Action::EmitUnknown, Action::Idle, Action::Idle]
    );
}

#[test]
fn client_disappears_and_reappears() {
    assert_eq!(
        run(&[
            Sighting::Running,
            Sighting::Running,
            Sighting::Stopped,
            Sighting::Stopped,
            Sighting::Running,
            Sighting::Running,
        ]),
        vec![
            Action::Refresh,
            Action::Idle,
            Action::EmitUnknown,
            Action::Idle,
            Action::Refresh,
            Action::Idle,
        ]
    );
}

#[test]
fn every_transition_acts_exactly_once() {
    for running in [false, true] {
        let state = Presence { running, first: false };
        let (to_running, on_running) = state.observe(Sighting::Running);
        let (to_stopped, on_stopped) = state.observe(Sighting::Stopped);
        assert_eq!(to_running, Presence { running: true, first: false });
        assert_eq!(to_stopped, Presence { running: false, first: false });
        assert_eq!(on_running, if running { Action::Idle } else { Action::Refresh });
        assert_eq!(on_stopped, if running { Action::EmitUnknown } else { Action::Idle });
    }
}

#[test]
fn look_that_cannot_tell_changes_nothing() {
    for running in [false, true] {
        for first in [false, true] {
            let state = Presence { running, first };
            assert_eq!(state.observe(Sighting::Unknown), (state, Action::Idle));
        }
    }
    assert_eq!(
        run(&[Sighting::Unknown, Sighting::Running, Sighting::Unknown, Sighting::Running]),
        vec![Action::Idle, Action::Refresh, Action::Idle, Action::Idle]
    );
    assert_eq!(
        run(&[Sighting::Running, Sighting::Unknown, Sighting::Stopped, Sighting::Unknown, Sighting::Running]),
        vec![Action::Refresh, Action::Idle, Action::EmitUnknown, Action::Idle, Action::Refresh]
    );
}

#[test]
fn client_is_known_by_its_name() {
    assert!(is_client("thunderbird", false));
    assert!(is_client("thunderbird", true));
    assert!(!is_client("thunderbird-bin", false));
    assert!(!is_client("thunderbir", false));
    assert!(!is_client("", false));
    assert!(!is_client("firefox", true));
    assert!(!is_client("thunderb\u{ee}rd", true));
}

#[test]
fn case_counts_only_where_it_is_said_to() {
    assert!(!is_client("Thunderbird", false));
    assert!(!is_client("THUNDERBIRD", false));
    assert!(is_client("Thunderbird", true));
    assert!(is_client("THUNDERBIRD", true));
    assert!(is_client("tHuNdErBiRd", true));
    assert!(!is_client("THUNDERBIRD.", true));
    assert!(!is_client("thunderbir\u{44}\u{301}", true));
    assert!(!is_client("TH[NDERBIRD", true));
    assert!(!is_client("TH@NDERBIRD", true));
}

#[test]
fn process_table_is_scanned_for_the_client() {
    let with: Vec<String> = ["init", "bash", "thunderbird", "cron"].iter().map(|s| s.to_string()).collect();
    let without: Vec<String> = ["init", "bash", "Thunderbird", "cron"].iter().map(|s| s.to_string()).collect();
    assert!(client_running(&with, false));
    assert!(!client_running(&without, false));
    assert!(client_running(&without, true));
    assert!(!client_running(&vec![], false));
    assert!(!client_running(&vec![], true));
}

#[test]
fn scan_becomes_a_sighting() {
    let with = vec!["thunderbird".to_string()];
    let without = vec!["bash".to_string()];
    assert_eq!(sight(Some(&with), false), Sighting::Running);
    assert_eq!(sight(Some(&without), false), Sighting::Stopped);
    assert_eq!(sight(Some(&vec![]), false), Sighting::Stopped);
    assert_eq!(sight(None, false), Sighting::Unknown);
    assert_eq!(sight(None, true), Sighting::Unknown);
}

#[test]
fn writes_and_creations_trigger_a_pass() {
    assert_eq!(on_change(Change::Write), Reaction::Refresh);
    assert_eq!(on_change(Change::Create), Reaction::Refresh);
}

#[test]
fn other_changes_are_ignored() {
    assert_eq!(on_change(Change::Other), Reaction::Ignore);
}

#[test]
fn lost_channel_ends_the_change_loop() {
    assert_eq!(
        on_change(Change::Lost("receiving on a closed channel".to_string())),
        Reaction::Fail(MonitorError::Events { reason: "receiving on a closed channel".to_string() })
    );
}

#[test]
fn only_a_failed_update_lets_the_monitor_live() {
    let update = MonitorError::Update(CountError::Overflow { account: "a".to_string() });
    assert!(!update.is_fatal());
    assert!(MonitorError::Sink { reason: "disk full".to_string() }.is_fatal());
    assert!(MonitorError::WatcherStart { reason: "no inotify".to_string() }.is_fatal());
    assert!(MonitorError::WatchRoot { path: "/mail".to_string(), reason: "gone".to_string() }.is_fatal());
    assert!(MonitorError::Events { reason: "closed".to_string() }.is_fatal());
    assert!(MonitorError::Disconnected.is_fatal());
}

#[test]
fn quiet_signal_lets_the_presence_loop_go_on() {
    assert_eq!(on_signal(Signal::Quiet), Verdict::Continue);
}

#[test]
fn closed_signal_stops_the_presence_loop() {
    assert_eq!(on_signal(Signal::Closed), Verdict::Stop(MonitorError::Disconnected));
}

#[test]
fn watch_failure_stops_the_presence_loop_too() {
    let lost = MonitorError::Events { reason: "closed".to_string() };
    assert_eq!(on_signal(Signal::Failure(lost.clone())), Verdict::Stop(lost));
    let start = MonitorError::WatcherStart { reason: "limit".to_string() };
    assert_eq!(on_signal(Signal::Failure(start.clone())), Verdict::Stop(start));
    let watch = MonitorError::WatchRoot { path: "/mail".to_string(), reason: "gone".to_string() };
    assert_eq!(on_signal(Signal::Failure(watch.clone())), Verdict::Stop(watch));
}

#[test]
fn failed_update_is_reported_and_the_loop_goes_on() {
    let failed = MonitorError::Update(CountError::Unreadable {
        path: "/mail/a/b.msf".to_string(),
        reason: "denied".to_string(),
    });
    assert_eq!(on_signal(Signal::Failure(failed.clone())), Verdict::Report(failed));
}

#[test]
fn update_sends_the_rendered_snapshot() {
    let visits = vec![file("bob", "Sent.msf", "(^A2=1)(^A2=A)"), file("alice", "INBOX.msf", "(^A2=5)")];
    let s = settings(false, Some("/tmp/unread"));
    assert_eq!(
        update_count(&s, &root(), &visits),
        Ok(Emission {
            print: Some("5 10".to_string()),
            write: Some(("/tmp/unread".to_string(), "5 10".to_string())),
        })
    );
}

#[test]
fn update_of_an_empty_root_sends_an_empty_line() {
    let s = settings(false, None);
    assert_eq!(
        update_count(&s, &root(), &vec![]),
        Ok(Emission { print: Some(String::new()), write: None })
    );
}

#[test]
fn failed_update_sends_nothing() {
    let visits = vec![
        file("alice", "INBOX.msf", "(^A2=5)"),
        Visit::Unreachable { shown: "/mail/x".to_string(), reason: "denied".to_string() },
    ];
    let s = settings(false, Some("/tmp/unread"));
    let error = CountError::Walk { path: "/mail/x".to_string(), reason: "denied".to_string() };
    assert_eq!(update_count(&s, &root(), &visits), Err(error.clone()));
    assert_eq!(update_and_log(&s, &root(), &visits), Err(MonitorError::Update(error)));
}

#[test]
fn logged_update_passes_success_through() {
    let visits = vec![file("alice", "INBOX.msf", "(^A2=c)")];
    let s = settings(true, Some("out"));
    assert_eq!(
        update_and_log(&s, &root(), &visits),
        Ok(Emission { print: None, write: Some(("out".to_string(), "12".to_string())) })
    );
}

#[test]
fn unknown_goes_where_the_settings_say() {
    assert_eq!(
        write_count(&settings(false, None), UNKNOWN),
        Emission { print: Some("???".to_string()), write: None }
    );
}
