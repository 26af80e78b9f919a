use cpkg::commands::{
    start_update_all, update_step, validate_app, DownloadStatus, UpdateAction, UpdateAllAction,
    UpdateAllStart, UpdateEvent, UpdatePlan,
};
use cpkg::manifest::AppManifest;
use cpkg::state::{record_installation, InstalledApp, InstalledState};

fn app(id: &str) -> InstalledApp {
    InstalledApp {
        app_id: id.to_string(),
        name: format!("old {id}"),
        repo: format!("https://github.com/u/{id}"),
        description: "d".to_string(),
        download: format!("https://github.com/u/{id}/releases/latest/download/{id}.exe"),
        installed_file: format!("out/{id}.exe"),
        installed_at_unix: 7,
    }
}

fn manifest(id: &str, name: &str) -> AppManifest {
    AppManifest {
        name: name.to_string(),
        repo: format!("https://github.com/u/{id}"),
        description: "new".to_string(),
        download: format!("https://github.com/u/{id}/releases/latest/download/{id}-2.exe"),
    }
}

fn action(a: UpdateAllAction) -> String {
    match a {
        UpdateAllAction::ReadManifest(id) => format!("read {id}"),
        UpdateAllAction::Download(u) => format!("download {u}"),
        UpdateAllAction::Finish => "finish".to_string(),
    }
}

#[test]
fn nothing_to_update_in_an_empty_state() {
    match start_update_all(InstalledState::new(), "out") {
        UpdateAllStart::NothingToUpdate(line) => assert_eq!(line, "No installed apps to update."),
        UpdateAllStart::Run(_) => panic!("expected nothing to update"),
    }
}

#[test]
fn updating_all_apps_keeps_order_and_the_tool_itself() {
    let state = InstalledState { apps: vec![app("b"), app("cpkg"), app("a"), app("c")] };
    let mut run = match start_update_all(state, "out") {
        UpdateAllStart::Run(run) => run,
        UpdateAllStart::NothingToUpdate(_) => panic!("expected a run"),
    };
    assert_eq!(action(run.next_action()), "read b");
    run.manifest_read(Ok(manifest("b", "new b")));
    assert_eq!(action(run.next_action()), "download https://github.com/u/b/releases/latest/download/b-2.exe");
    run.downloaded(Ok(DownloadStatus::Downloaded));
    assert_eq!(action(run.next_action()), "read a");
    run.manifest_read(Err("Failed reading apps/a.json".to_string()));
    assert_eq!(action(run.next_action()), "read c");
    run.manifest_read(Ok(manifest("c", "new c")));
    run.downloaded(Err("Request failed".to_string()));
    assert_eq!(action(run.next_action()), "finish");
    let (state, report) = run.finish();
    let ids: Vec<&str> = state.apps.iter().map(|a| a.app_id.as_str()).collect();
    assert_eq!(ids, vec!["b", "cpkg", "a", "c"]);
    assert_eq!(state.apps[0].name, "new b");
    assert!(state.apps[0].installed_file.ends_with("b-2.exe"));
    assert!(state.apps[0].installed_at_unix > 1_600_000_000);
    assert_eq!(state.apps[1].name, "old cpkg");
    assert_eq!(state.apps[2].name, "old a");
    assert_eq!(state.apps[3].name, "old c");
    assert_eq!(
        report.lines,
        vec!["OK: Updated b.", "FAIL: a (Failed reading apps/a.json)", "FAIL: c (Request failed)"]
    );
    assert_eq!(report.result, Err("Update failed for 2 app(s)".to_string()));
}

#[test]
fn a_refused_manifest_fails_its_app() {
    let mut run = match start_update_all(InstalledState { apps: vec![app("a")] }, "out") {
        UpdateAllStart::Run(run) => run,
        UpdateAllStart::NothingToUpdate(_) => panic!("expected a run"),
    };
    run.manifest_read(Ok(manifest("a", " ")));
    assert_eq!(action(run.next_action()), "finish");
    let (_, report) = run.finish();
    assert_eq!(report.lines, vec!["FAIL: a (name must not be empty)"]);
}

#[test]
fn only_the_tool_installed() {
    let mut run = match start_update_all(InstalledState { apps: vec![app("CPKG")] }, "out") {
        UpdateAllStart::Run(run) => run,
        UpdateAllStart::NothingToUpdate(_) => panic!("expected a run"),
    };
    assert_eq!(action(run.next_action()), "finish");
    run.downloaded(Ok(DownloadStatus::UpToDate));
    let (state, report) = run.finish();
    assert_eq!(state.apps.len(), 1);
    assert_eq!(report.result, Ok(()));
}

fn step(plan: &UpdatePlan, e: UpdateEvent) -> String {
    match update_step(plan, e) {
        UpdateAction::UpdateAll => "all".to_string(),
        UpdateAction::SelfUpdate => "self".to_string(),
        UpdateAction::UpdateOne(t) => format!("one {t}"),
        UpdateAction::Done(r) => format!("done {r:?}"),
    }
}

#[test]
fn update_all_stops_before_the_self_update_on_error() {
    let all = UpdatePlan::AllApps;
    assert_eq!(step(&all, UpdateEvent::Start), "all");
    assert_eq!(step(&all, UpdateEvent::AllUpdated(Ok(()))), "self");
    assert_eq!(step(&all, UpdateEvent::AllUpdated(Err("x".to_string()))), "done Err(\"x\")");
    assert_eq!(step(&all, UpdateEvent::SelfUpdated(Ok(()))), "done Ok(())");
    assert_eq!(step(&UpdatePlan::SelfOnly, UpdateEvent::Start), "self");
    let one = UpdatePlan::OneApp("brave".to_string());
    assert_eq!(step(&one, UpdateEvent::Start), "one brave");
    assert_eq!(step(&one, UpdateEvent::OneUpdated(Err("e".to_string()))), "done Err(\"e\")");
}

#[test]
fn validating_one_app() {
    let r = validate_app("a", Ok(manifest("a", "A")));
    assert_eq!(r.lines, vec!["OK: a"]);
    assert_eq!(r.result, Ok(()));
    let r = validate_app("a", Ok(manifest("a", "")));
    assert!(r.lines.is_empty());
    assert_eq!(r.result, Err("name must not be empty".to_string()));
    let r = validate_app("a", Err("Failed reading apps/a.json: gone".to_string()));
    assert!(r.lines.is_empty());
    assert_eq!(r.result, Err("Failed reading apps/a.json: gone".to_string()));
}

#[test]
fn recording_an_installation_keeps_the_given_time() {
    let mut state = InstalledState::new();
    record_installation(&mut state, "a", &manifest("a", "A"), "out", 1234).unwrap();
    assert_eq!(state.apps[0].installed_at_unix, 1234);
    assert!(state.apps[0].installed_file.ends_with("a-2.exe"));
}

#[test]
fn an_accepted_manifest_without_file_name_fails_at_recording() {
    let mut run = match start_update_all(InstalledState { apps: vec![app("a")] }, "out") {
        UpdateAllStart::Run(run) => run,
        UpdateAllStart::NothingToUpdate(_) => panic!("expected a run"),
    };
    let mut m = manifest("a", "A");
    m.download = "https://github.com/u/a/releases/latest/download/".to_string();
    run.manifest_read(Ok(m));
    run.downloaded(Ok(DownloadStatus::Downloaded));
    assert_eq!(
        cpkg::commands::update_check_line(run.checks.last().unwrap()),
        "FAIL: a (download URL has no file name)"
    );
    let (state, _) = run.finish();
    assert_eq!(state.apps[0].name, "old a");
}
