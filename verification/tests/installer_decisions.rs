use cpkg::installer::{
    add_install_dir_to_path, install_question, install_success_message, path_contains_dir,
    pick_release_url, query_path_value, quote_arg, relaunch_as_admin, releases_from_response,
    resolve_download_url,
    check_cancelled, installer_step, path_write_outcome, show_error, Asset, InstallerAction,
    InstallerEvent, DownloadProgress, Release, ResolveEvent, ResolveStep, UpdateChannel,
};

const DIRECT: &str = "https://github.com/callenflynn/cpkg/releases/latest/download/cpkg.exe";

fn asset(name: Option<&str>, url: Option<&str>) -> Asset {
    Asset { name: name.map(str::to_string), browser_download_url: url.map(str::to_string) }
}

fn release(prerelease: bool, tag: &str, assets: Option<Vec<Asset>>) -> Release {
    Release { prerelease, tag_name: tag.to_string(), assets }
}

fn describe(s: ResolveStep) -> String {
    match s {
        ResolveStep::Probe(u) => format!("probe {u}"),
        ResolveStep::Fetch { page, url } => format!("fetch {page} {url}"),
        ResolveStep::Found(u) => format!("found {u}"),
        ResolveStep::Failed(m) => format!("failed {m}"),
    }
}

#[test]
fn channel_names() {
    assert_eq!(UpdateChannel::Stable.as_str(), "stable");
    assert_eq!(UpdateChannel::Nightly.as_str(), "nightly");
}

#[test]
fn quoting_arguments() {
    assert_eq!(quote_arg("--debug"), "--debug");
    assert_eq!(quote_arg(""), "\"\"");
    assert_eq!(quote_arg("C:\\Program Files\\cpkg"), "\"C:\\Program Files\\cpkg\"");
    assert_eq!(quote_arg("a\"b"), "\"a\"\"b\"");
    assert_eq!(quote_arg("tab\there"), "\"tab\there\"");
}

#[test]
fn relaunch_parameters() {
    assert_eq!(relaunch_as_admin(false, UpdateChannel::Stable, None), "--channel stable --elevated");
    assert_eq!(
        relaunch_as_admin(true, UpdateChannel::Nightly, Some("C:\\Program Files\\cpkg")),
        "--debug --channel nightly --install-dir \"C:\\Program Files\\cpkg\" --elevated"
    );
}

#[test]
fn resolving_starts_with_the_direct_url_for_stable_only() {
    assert_eq!(describe(resolve_download_url(UpdateChannel::Stable, ResolveEvent::Start)), format!("probe {DIRECT}"));
    assert_eq!(
        describe(resolve_download_url(UpdateChannel::Nightly, ResolveEvent::Start)),
        "fetch 1 https://api.github.com/repos/callenflynn/cpkg/releases?per_page=30&page=1"
    );
    assert_eq!(
        describe(resolve_download_url(UpdateChannel::Stable, ResolveEvent::Probed(true))),
        format!("found {DIRECT}")
    );
    assert_eq!(
        describe(resolve_download_url(UpdateChannel::Stable, ResolveEvent::Probed(false))),
        "fetch 1 https://api.github.com/repos/callenflynn/cpkg/releases?per_page=30&page=1"
    );
}

#[test]
fn resolving_pages() {
    let none = resolve_download_url(UpdateChannel::Stable, ResolveEvent::Page { page: 3, releases: None });
    assert_eq!(describe(none), "failed Unexpected GitHub releases response format");
    let empty = resolve_download_url(UpdateChannel::Nightly, ResolveEvent::Page { page: 3, releases: Some(vec![]) });
    assert_eq!(describe(empty), "failed Could not find cpkg.exe in GitHub releases for channel 'nightly'.");
    let page = vec![release(true, "v2-nightly.1", Some(vec![asset(Some("cpkg.exe"), Some("u1"))]))];
    let next = resolve_download_url(UpdateChannel::Stable, ResolveEvent::Page { page: 12, releases: Some(page) });
    assert_eq!(describe(next), "fetch 13 https://api.github.com/repos/callenflynn/cpkg/releases?per_page=30&page=13");
}

#[test]
fn picking_a_release_follows_the_channel() {
    let rs = vec![
        release(true, "v2-beta.1", Some(vec![asset(Some("cpkg.exe"), Some("beta"))])),
        release(true, "v2-NIGHTLY.5", Some(vec![
            asset(Some("readme.txt"), Some("readme")),
            asset(Some("CPKG.EXE"), None),
            asset(Some("Cpkg.exe"), Some("nightly")),
        ])),
        release(false, "v1.0", None),
        release(false, "v0.9", Some(vec![asset(None, Some("nameless")), asset(Some("cpkg.exe"), Some("stable"))])),
    ];
    assert_eq!(pick_release_url(&rs, UpdateChannel::Stable), Some("stable".to_string()));
    assert_eq!(pick_release_url(&rs, UpdateChannel::Nightly), Some("nightly".to_string()));
    let found = resolve_download_url(UpdateChannel::Nightly, ResolveEvent::Page { page: 1, releases: Some(rs) });
    assert_eq!(describe(found), "found nightly");
}

#[test]
fn reading_the_path_from_reg_query() {
    let out = "\r\nHKEY_LOCAL_MACHINE\\SYSTEM\\CurrentControlSet\\Control\\Session Manager\\Environment\r\n    Path    REG_EXPAND_SZ    C:\\Windows;C:\\Program   Files\\x\r\n\r\n";
    assert_eq!(query_path_value(out), "C:\\Windows;C:\\Program Files\\x");
    assert_eq!(query_path_value("nothing here\n"), "");
    assert_eq!(query_path_value("Path REG_SZ\n"), "");
}

#[test]
fn path_entries_are_compared_trimmed_and_ignoring_case() {
    assert!(path_contains_dir("C:\\Windows; c:\\program files\\CPKG ;D:\\x", "C:\\Program Files\\cpkg"));
    assert!(!path_contains_dir("C:\\Windows;D:\\x", "C:\\Program Files\\cpkg"));
}

#[test]
fn adding_the_install_directory() {
    let out = "    Path    REG_EXPAND_SZ    C:\\Windows  \n";
    assert_eq!(
        add_install_dir_to_path(true, out, "C:\\Program Files\\cpkg"),
        Ok(Some("C:\\Windows;C:\\Program Files\\cpkg".to_string()))
    );
    assert_eq!(add_install_dir_to_path(true, "", "C:\\cpkg"), Ok(Some("C:\\cpkg".to_string())));
    let after = "    Path    REG_EXPAND_SZ    C:\\Windows;C:\\Program Files\\cpkg\n";
    assert_eq!(add_install_dir_to_path(true, after, "C:\\Program Files\\cpkg"), Ok(None));
    assert_eq!(
        add_install_dir_to_path(false, out, "C:\\cpkg"),
        Err("Failed to query machine PATH from registry.".to_string())
    );
    assert_eq!(path_write_outcome(true, "x"), Ok(()));
    assert_eq!(path_write_outcome(false, "Access denied"), Err("Failed to update PATH: Access denied".to_string()));
}

#[test]
fn installer_messages() {
    assert_eq!(
        install_question("C:\\cpkg", UpdateChannel::Nightly),
        "Install cpkg to the recommended location?\n\nC:\\cpkg\n\nUpdate channel: nightly\n\nTo update later, run this installer again."
    );
    assert_eq!(
        install_success_message("C:\\cpkg\\cpkg.exe"),
        "cpkg installed successfully.\n\nLocation:\nC:\\cpkg\\cpkg.exe\n\nTo update later, run this installer again."
    );
    assert_eq!(show_error(true, "boom"), "Installation failed.\n\nboom");
    assert_eq!(show_error(false, "boom"), "Installation failed. Run with --debug for detailed error output.");
}

#[test]
fn download_progress_counts_bytes() {
    let mut p = DownloadProgress::new(Some(100));
    assert_eq!(p.advance(40), Some((40, 100)));
    assert_eq!(p.advance(60), Some((100, 100)));
    let mut q = DownloadProgress::new(None);
    assert_eq!(q.advance(10), None);
    assert_eq!(q.downloaded, 10);
}

#[test]
fn reading_a_releases_page() {
    let raw = r#"[
        {"prerelease": "yes", "tag_name": 5, "assets": [{"name": "cpkg.exe", "browser_download_url": "u1"}, {"name": 3}]},
        {"prerelease": true, "tag_name": "v2-nightly.1", "assets": {"not": "an array"}},
        {"draft": false}
    ]"#;
    let rs = releases_from_response(raw).unwrap().unwrap();
    assert_eq!(rs.len(), 3);
    assert!(!rs[0].prerelease);
    assert_eq!(rs[0].tag_name, "");
    let assets = rs[0].assets.as_ref().unwrap();
    assert_eq!(assets.len(), 2);
    assert_eq!(assets[0].name.as_deref(), Some("cpkg.exe"));
    assert_eq!(assets[0].browser_download_url.as_deref(), Some("u1"));
    assert_eq!(assets[1].name, None);
    assert_eq!(assets[1].browser_download_url, None);
    assert!(rs[1].prerelease);
    assert_eq!(rs[1].tag_name, "v2-nightly.1");
    assert!(rs[1].assets.is_none());
    assert!(!rs[2].prerelease);
    assert!(rs[2].assets.is_none());
    assert_eq!(pick_release_url(&rs, UpdateChannel::Stable), Some("u1".to_string()));
}

#[test]
fn non_array_and_non_json_pages() {
    assert!(releases_from_response(r#"{"message": "rate limited"}"#).unwrap().is_none());
    assert!(releases_from_response("[]").unwrap().unwrap().is_empty());
    let err = releases_from_response("<html>").unwrap_err();
    assert!(err.starts_with("Failed to parse releases response: "), "{err}");
    assert!(err.len() > "Failed to parse releases response: ".len());
}

#[test]
fn unquoting_a_quoted_argument_gives_it_back() {
    for v in ["", "plain", "with space", "a\"b", "\"\"", "tab\there", "\"x\" y"] {
        let q = quote_arg(v);
        let back = if q.len() >= 2 && q.starts_with('"') && q.ends_with('"') {
            q[1..q.len() - 1].replace("\"\"", "\"")
        } else {
            q.clone()
        };
        assert_eq!(back, v, "{q}");
    }
}

#[test]
fn cancelling_a_download() {
    assert_eq!(check_cancelled(false), Ok(()));
    assert_eq!(check_cancelled(true), Err("Installation cancelled by user.".to_string()));
}

fn act(a: InstallerAction) -> String {
    match a {
        InstallerAction::AskProceed(q) => format!("ask-proceed {q}"),
        InstallerAction::AskAddToPath(q) => format!("ask-path {q}"),
        InstallerAction::Install { add_to_path } => format!("install {add_to_path}"),
        InstallerAction::UpdatePath { target } => format!("path {target}"),
        InstallerAction::Finish(m) => format!("finish {m}"),
        InstallerAction::Stop => "stop".to_string(),
    }
}

#[test]
fn installer_dialog_steps() {
    let start = installer_step(InstallerEvent::Start { install_dir: "C:\\cpkg".to_string(), channel: UpdateChannel::Stable });
    assert!(act(start).starts_with("ask-proceed Install cpkg to the recommended location?"));
    assert_eq!(act(installer_step(InstallerEvent::Proceed(false))), "stop");
    assert_eq!(act(installer_step(InstallerEvent::Proceed(true))), "ask-path Add cpkg to PATH?\n\nRecommended: Yes");
    assert_eq!(act(installer_step(InstallerEvent::AddToPath(false))), "install false");
    assert_eq!(
        act(installer_step(InstallerEvent::Installed { target: "T".to_string(), add_to_path: true })),
        "path T"
    );
    let done = act(installer_step(InstallerEvent::Installed { target: "T".to_string(), add_to_path: false }));
    assert_eq!(done, act(installer_step(InstallerEvent::PathUpdated { target: "T".to_string() })));
    assert!(done.starts_with("finish cpkg installed successfully."));
}

/// Splits a command line as the Microsoft C runtime rules do.
fn split_windows(s: &str) -> Vec<String> {
    let chars: Vec<char> = s.chars().collect();
    let mut args = Vec::new();
    let mut cur = String::new();
    let (mut started, mut in_quotes, mut bs) = (false, false, 0usize);
    let mut i = 0;
    while i < chars.len() {
        let c = chars[i];
        if c == '\\' {
            bs += 1;
            started = true;
        } else if c == '"' {
            cur.push_str(&"\\".repeat(bs / 2));
            if bs % 2 == 1 {
                cur.push('"');
            } else if in_quotes && i + 1 < chars.len() && chars[i + 1] == '"' {
                cur.push('"');
                i += 1;
            } else {
                in_quotes = !in_quotes;
            }
            bs = 0;
            started = true;
        } else if (c == ' ' || c == '\t') && !in_quotes {
            if started {
                cur.push_str(&"\\".repeat(bs));
                args.push(std::mem::take(&mut cur));
            }
            started = false;
            bs = 0;
        } else {
            cur.push_str(&"\\".repeat(bs));
            cur.push(c);
            bs = 0;
            started = true;
        }
        i += 1;
    }
    if started {
        cur.push_str(&"\\".repeat(bs));
        args.push(cur);
    }
    args
}

#[test]
fn relaunch_parameters_read_back() {
    let p = relaunch_as_admin(true, UpdateChannel::Nightly, Some("C:\\Program Files\\my \\ cpkg"));
    assert_eq!(
        split_windows(&p),
        vec!["--debug", "--channel", "nightly", "--install-dir", "C:\\Program Files\\my \\ cpkg", "--elevated"]
    );
    let p = relaunch_as_admin(false, UpdateChannel::Stable, Some(""));
    assert_eq!(split_windows(&p), vec!["--channel", "stable", "--install-dir", "", "--elevated"]);
}
