use cpkg::commands::{
    download_status, install_app_message, run, show_app, update_all_apps, update_apps,
    update_one_app_message, validate_apps, Command, DownloadStatus, ManifestCheck, Task, UpdateCheck,
    UpdatePlan,
};
use cpkg::manifest::AppManifest;

fn plan_name(p: &UpdatePlan) -> String {
    match p {
        UpdatePlan::AllApps => "all".to_string(),
        UpdatePlan::SelfOnly => "self".to_string(),
        UpdatePlan::OneApp(a) => format!("one:{a}"),
    }
}

fn plan(target: Option<&str>, all: bool) -> Result<String, String> {
    update_apps(target, all).map(|p| plan_name(&p))
}

#[test]
fn update_plans() {
    assert_eq!(plan(None, true), Ok("all".to_string()));
    assert_eq!(
        plan(Some("x"), true),
        Err("Use either update <app> or update --all, not both".to_string())
    );
    assert_eq!(plan(None, false), Err("Specify an app id, or use --all".to_string()));
    assert_eq!(plan(Some("ALL"), false), Ok("all".to_string()));
    assert_eq!(plan(Some(" CPKG.json "), false), Ok("self".to_string()));
    assert_eq!(plan(Some("cpkg"), false), Ok("self".to_string()));
    assert_eq!(plan(Some(" brave.json"), false), Ok("one: brave.json".to_string()));
}

#[test]
fn run_maps_commands_to_tasks() {
    let t = run(Command::List { state_file: "s.json".to_string() }).ok().unwrap();
    assert!(matches!(t, Task::List { state_file } if state_file == "s.json"));
    let t = run(Command::Update {
        target: Some("all".to_string()),
        all: false,
        apps_dir: "apps".to_string(),
        out_dir: "out".to_string(),
        state_file: "s".to_string(),
    })
    .ok()
    .unwrap();
    assert!(matches!(t, Task::Update { plan: UpdatePlan::AllApps, .. }));
    let e = run(Command::Update {
        target: None,
        all: false,
        apps_dir: "apps".to_string(),
        out_dir: "out".to_string(),
        state_file: "s".to_string(),
    });
    assert_eq!(e.err(), Some("Specify an app id, or use --all".to_string()));
    let t = run(Command::Remove { app: "x".to_string(), state_file: "s".to_string() }).ok().unwrap();
    assert!(matches!(t, Task::Remove { app, .. } if app == "x"));
}

#[test]
fn download_status_compares_bytes() {
    assert!(download_status(Some(&[1, 2, 3]), &[1, 2, 3]) == DownloadStatus::UpToDate);
    assert!(download_status(Some(&[1, 2]), &[1, 2, 3]) == DownloadStatus::Downloaded);
    assert!(download_status(Some(&[1, 2, 4]), &[1, 2, 3]) == DownloadStatus::Downloaded);
    assert!(download_status(None, &[]) == DownloadStatus::Downloaded);
    assert!(download_status(Some(&[]), &[]) == DownloadStatus::UpToDate);
}

#[test]
fn status_messages() {
    assert_eq!(install_app_message("a", DownloadStatus::UpToDate), "a is already up to date.");
    assert_eq!(install_app_message("a", DownloadStatus::Downloaded), "Installed a.");
    assert_eq!(update_one_app_message("a", DownloadStatus::Downloaded), "Updated a.");
    assert_eq!(update_one_app_message("a", DownloadStatus::UpToDate), "a is already up to date.");
}

#[test]
fn show_app_lines() {
    let m = AppManifest {
        name: "N".to_string(),
        repo: "https://github.com/u/r".to_string(),
        description: "D".to_string(),
        download: "https://github.com/u/r/releases/latest/download/x.exe".to_string(),
    };
    assert_eq!(
        show_app("r.u", &m),
        Ok(vec![
            "id: r.u".to_string(),
            "name: N".to_string(),
            "repo: https://github.com/u/r".to_string(),
            "description: D".to_string(),
            "download: https://github.com/u/r/releases/latest/download/x.exe".to_string(),
        ])
    );
    let bad = AppManifest { name: " ".to_string(), ..m };
    assert_eq!(show_app("r.u", &bad), Err("name must not be empty".to_string()));
}

#[test]
fn validation_reports() {
    let r = validate_apps("apps", &vec![]);
    assert!(r.lines.is_empty());
    assert_eq!(r.result, Err("No JSON files found in apps".to_string()));
    let checks = vec![
        ManifestCheck { app_id: "a".to_string(), result: Ok(()) },
        ManifestCheck { app_id: "b".to_string(), result: Err("name must not be empty".to_string()) },
    ];
    let r = validate_apps("apps", &checks);
    assert_eq!(r.lines, vec!["OK: a", "FAIL: b (name must not be empty)"]);
    assert_eq!(r.result, Err("Validation failed for 1 app(s)".to_string()));
    let r = validate_apps("apps", &vec![ManifestCheck { app_id: "a".to_string(), result: Ok(()) }]);
    assert_eq!(r.lines, vec!["OK: a", "All manifests are valid."]);
    assert_eq!(r.result, Ok(()));
}

#[test]
fn update_reports() {
    let checks = vec![
        UpdateCheck { app_id: "a".to_string(), result: Ok(DownloadStatus::UpToDate) },
        UpdateCheck { app_id: "b".to_string(), result: Ok(DownloadStatus::Downloaded) },
        UpdateCheck { app_id: "c".to_string(), result: Err("boom".to_string()) },
        UpdateCheck { app_id: "d".to_string(), result: Err("bang".to_string()) },
    ];
    let r = update_all_apps(&checks);
    assert_eq!(
        r.lines,
        vec!["OK: a is already up to date.", "OK: Updated b.", "FAIL: c (boom)", "FAIL: d (bang)"]
    );
    assert_eq!(r.result, Err("Update failed for 2 app(s)".to_string()));
    let r = update_all_apps(&vec![]);
    assert_eq!(r.lines, vec!["All installed apps are up to date (excluding cpkg self-update).\n"]);
    assert_eq!(r.result, Ok(()));
}
