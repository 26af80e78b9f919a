use cpkg::manifest::{
    app_manifest_path, file_name_from_download_url, has_json_extension, normalize_app_id,
    validate_manifest, AppManifest,
};

fn manifest(name: &str, repo: &str, description: &str, download: &str) -> AppManifest {
    AppManifest {
        name: name.to_string(),
        repo: repo.to_string(),
        description: description.to_string(),
        download: download.to_string(),
    }
}

#[test]
fn registry_examples_are_valid() {
    let example = manifest(
        "AppName",
        "https://github.com/GithubUsername/Repository",
        "Example app description",
        "https://github.com/GithubUsername/Repository/releases/latest/download/installer.exe",
    );
    assert_eq!(validate_manifest(&example), Ok(()));
    let brave = manifest(
        "Brave Browser",
        "https://github.com/brave/brave-browser",
        "Brave Browser is a lightning fast, safe and private web browser that prevents you from being tracked and blocks ads by default.",
        "https://github.com/brave/brave-browser/releases/latest/download/BraveBrowserStandaloneSilentNightlySetup.exe",
    );
    assert_eq!(validate_manifest(&brave), Ok(()));
}

#[test]
fn each_manifest_problem_is_reported_in_order() {
    let repo = "https://github.com/u/r";
    let dl = "https://github.com/u/r/releases/latest/download/x.exe";
    assert_eq!(
        validate_manifest(&manifest("  ", repo, "d", dl)),
        Err("name must not be empty".to_string())
    );
    assert_eq!(
        validate_manifest(&manifest("", repo, "", dl)),
        Err("name must not be empty".to_string())
    );
    assert_eq!(
        validate_manifest(&manifest("n", repo, "\t\n", dl)),
        Err("description must not be empty".to_string())
    );
    assert_eq!(
        validate_manifest(&manifest("n", "http://github.com/u/r", "d", dl)),
        Err("repo must start with https://github.com/".to_string())
    );
    assert_eq!(
        validate_manifest(&manifest("n", repo, "d", "https://example.com/releases/latest/download/x")),
        Err("download must start with https://github.com/".to_string())
    );
    assert_eq!(
        validate_manifest(&manifest("n", repo, "d", "https://github.com/u/r/releases/download/v1/x.exe")),
        Err("download should use /releases/latest/download/".to_string())
    );
}

#[test]
fn file_name_is_taken_after_the_last_slash_without_query() {
    assert_eq!(
        file_name_from_download_url("https://github.com/u/r/releases/latest/download/setup.exe"),
        Ok("setup.exe".to_string())
    );
    assert_eq!(
        file_name_from_download_url("https://x/a/b/tool.msi?raw=1/ignored"),
        Ok("tool.msi".to_string())
    );
    assert_eq!(file_name_from_download_url("https://x/a/ name.exe "), Ok("name.exe".to_string()));
    assert_eq!(file_name_from_download_url("noslash"), Ok("noslash".to_string()));
}

#[test]
fn url_without_file_name_is_refused() {
    let err = Err("download URL has no file name".to_string());
    assert_eq!(file_name_from_download_url("https://github.com/u/r/releases/latest/download/"), err);
    assert_eq!(file_name_from_download_url("https://x/dir/ ?q"), err);
    assert_eq!(file_name_from_download_url(""), err);
}

#[test]
fn app_ids_are_normalized() {
    assert_eq!(normalize_app_id("  explorer.callen.json "), "explorer.callen");
    assert_eq!(normalize_app_id("explorer.callen"), "explorer.callen");
    assert_eq!(normalize_app_id("a.json.json"), "a");
    assert_eq!(normalize_app_id(" a .json"), "a ");
}

#[test]
fn manifest_path_joins_the_apps_directory_and_the_json_file() {
    let p = app_manifest_path("apps", "explorer.callen.json");
    assert_eq!(std::path::PathBuf::from(&p), std::path::Path::new("apps").join("explorer.callen.json"));
    assert!(p.starts_with("apps"));
    assert!(p.ends_with("explorer.callen.json"));
    let q = app_manifest_path("apps", "brave");
    assert!(q.ends_with("brave.json"));
    assert_ne!(q, "brave.json");
}

#[test]
fn json_extension_follows_path_rules() {
    assert!(has_json_extension("a.json"));
    assert!(has_json_extension("a.b.json"));
    assert!(has_json_extension("..json"));
    assert!(!has_json_extension(".json"));
    assert!(!has_json_extension("a.JSON"));
    assert!(!has_json_extension("json"));
    assert!(!has_json_extension("a.json.bak"));
    for name in ["a.json", ".json", "..json", "x.y.json", "json", "a.", "..", "a.jsonx"] {
        let std_says = std::path::Path::new(name).extension().map(|e| e == "json").unwrap_or(false);
        assert_eq!(has_json_extension(name), std_says, "{name}");
    }
}

#[test]
fn manifest_path_is_apps_dir_joined_with_the_file() {
    assert_eq!(std::path::Path::new(&app_manifest_path("apps", "explorer.callen")), std::path::Path::new("apps").join("explorer.callen.json"));
    assert_eq!(app_manifest_path("", "x"), "x.json");
    let p = app_manifest_path("my apps", "x.json");
    assert!(p == "my apps/x.json" || p == "my apps\\x.json", "{p}");
}
