use cpkg::manifest::AppManifest;
use cpkg::state::{
    apps_to_update, installed_app_id, list_installed_apps, remove_app, sort_by_id, upsert_installed,
    upsert_record, InstalledApp, InstalledState,
};
use cpkg::sys::now_unix_seconds;

fn app(id: &str, name: &str) -> InstalledApp {
    InstalledApp {
        app_id: id.to_string(),
        name: name.to_string(),
        repo: format!("https://github.com/u/{id}"),
        description: "d".to_string(),
        download: format!("https://github.com/u/{id}/releases/latest/download/{id}.exe"),
        installed_file: format!("out/{id}.exe"),
        installed_at_unix: 7,
    }
}

fn ids(state: &InstalledState) -> Vec<&str> {
    state.apps.iter().map(|a| a.app_id.as_str()).collect()
}

#[test]
fn new_records_are_added_in_id_order() {
    let mut state = InstalledState::new();
    upsert_record(&mut state, app("b", "B"));
    upsert_record(&mut state, app("a", "A"));
    upsert_record(&mut state, app("c", "C"));
    assert_eq!(ids(&state), vec!["a", "b", "c"]);
}

#[test]
fn adding_sorts_a_state_that_was_not_sorted() {
    let mut state = InstalledState { apps: vec![app("z", "Z"), app("m", "M")] };
    upsert_record(&mut state, app("a", "A"));
    assert_eq!(ids(&state), vec!["a", "m", "z"]);
}

#[test]
fn sorting_is_stable_and_by_bytes() {
    let sorted = sort_by_id(vec![app("b", "1"), app("B", "2"), app("b", "3"), app("a", "4")]);
    let got: Vec<(&str, &str)> = sorted.iter().map(|a| (a.app_id.as_str(), a.name.as_str())).collect();
    assert_eq!(got, vec![("B", "2"), ("a", "4"), ("b", "1"), ("b", "3")]);
}

#[test]
fn recording_an_installed_app_replaces_it_in_place() {
    let mut state = InstalledState { apps: vec![app("z", "Z"), app("m", "M")] };
    upsert_record(&mut state, app("m", "M2"));
    assert_eq!(ids(&state), vec!["z", "m"]);
    assert_eq!(state.apps[1].name, "M2");
}

#[test]
fn upsert_then_find_gives_the_record() {
    let mut state = InstalledState { apps: vec![app("a", "A"), app("c", "C")] };
    upsert_record(&mut state, app("b", "B"));
    let found = state.apps.iter().find(|a| a.app_id == "b").unwrap();
    assert_eq!(found.name, "B");
}

#[test]
fn remove_undoes_install_of_a_new_app() {
    let mut state = InstalledState { apps: vec![app("a", "A"), app("c", "C")] };
    upsert_record(&mut state, app("b", "B"));
    let removed = remove_app(&mut state, "b").unwrap();
    assert_eq!(removed.name, "B");
    assert_eq!(ids(&state), vec!["a", "c"]);
}

#[test]
fn remove_normalizes_and_reports_missing_apps() {
    let mut state = InstalledState { apps: vec![app("a", "A")] };
    assert_eq!(remove_app(&mut state, " x.json ").err(), Some("x is not installed".to_string()));
    assert_eq!(ids(&state), vec!["a"]);
    assert!(remove_app(&mut state, "a.json").is_ok());
    assert!(state.apps.is_empty());
}

#[test]
fn upsert_installed_builds_the_record() {
    let mut state = InstalledState::new();
    let m = AppManifest {
        name: "Tool".to_string(),
        repo: "https://github.com/u/tool".to_string(),
        description: "A tool".to_string(),
        download: "https://github.com/u/tool/releases/latest/download/tool-setup.exe?x=1".to_string(),
    };
    let before = now_unix_seconds().unwrap();
    upsert_installed(&mut state, "tool", &m, "downloads").unwrap();
    assert_eq!(state.apps.len(), 1);
    let rec = &state.apps[0];
    assert_eq!(rec.app_id, "tool");
    assert_eq!(rec.name, "Tool");
    assert_eq!(rec.download, m.download);
    assert_eq!(
        std::path::PathBuf::from(&rec.installed_file),
        std::path::Path::new("downloads").join("tool-setup.exe")
    );
    assert!(rec.installed_at_unix >= before);
}

#[test]
fn upsert_installed_refuses_url_without_file_name() {
    let mut state = InstalledState { apps: vec![app("a", "A")] };
    let m = AppManifest {
        name: "T".to_string(),
        repo: "https://github.com/u/t".to_string(),
        description: "d".to_string(),
        download: "https://github.com/u/t/releases/latest/download/".to_string(),
    };
    assert_eq!(
        upsert_installed(&mut state, "t", &m, "out"),
        Err("download URL has no file name".to_string())
    );
    assert_eq!(ids(&state), vec!["a"]);
}

#[test]
fn clock_reads_after_2020() {
    assert!(now_unix_seconds().unwrap() > 1_600_000_000);
}

#[test]
fn listing_lines() {
    assert_eq!(list_installed_apps(&InstalledState::new()), vec!["No apps installed yet."]);
    let state = InstalledState { apps: vec![app("a", "A"), app("b", "B")] };
    assert_eq!(
        list_installed_apps(&state),
        vec!["Installed app(s): 2", "- a: A (out/a.exe)", "- b: B (out/b.exe)"]
    );
}

#[test]
fn update_of_all_apps_skips_the_tool_itself() {
    let state = InstalledState { apps: vec![app("CPKG", "self"), app("a", "A"), app("cpkg", "s"), app("b", "B")] };
    assert_eq!(apps_to_update(&state), vec!["a", "b"]);
}

#[test]
fn installed_app_id_checks_the_state() {
    let state = InstalledState { apps: vec![app("a", "A")] };
    assert_eq!(installed_app_id(&state, " a.json"), Ok("a".to_string()));
    assert_eq!(installed_app_id(&state, "b"), Err("b is not installed".to_string()));
}

#[test]
fn id_order_matches_string_order() {
    let names = ["zeta", "Äpfel", "apfel", "日本", "a", "", "ab", "aß", "a\u{10000}", "a\u{ffff}"];
    let mut expected: Vec<String> = names.iter().map(|s| s.to_string()).collect();
    expected.sort();
    let sorted = sort_by_id(names.iter().map(|n| app(n, "x")).collect());
    let got: Vec<String> = sorted.iter().map(|a| a.app_id.clone()).collect();
    assert_eq!(got, expected);
}

#[test]
fn installed_file_is_out_dir_joined_with_the_file_name() {
    let mut state = InstalledState::new();
    let m = AppManifest {
        name: "T".to_string(),
        repo: "https://github.com/u/t".to_string(),
        description: "d".to_string(),
        download: "https://github.com/u/t/releases/latest/download/t.exe".to_string(),
    };
    upsert_installed(&mut state, "t", &m, ".cpkg/downloads").unwrap();
    let f = &state.apps[0].installed_file;
    assert!(f == ".cpkg/downloads/t.exe" || f == ".cpkg/downloads\\t.exe", "{f}");
}
