//! The decisions of the command-line tool: which work a command asks for,
//! and what is reported once that work is done.

use crate::manifest::{
    normalize_app_id, normalized_app_id, problem_of, url_file_name, validate_manifest, AppManifest,
};
use crate::state::{
    apps_to_update, has_id, ids_of, ids_to_update, installed_as, is_self_id, lemma_has_id_ids_of,
    lemma_ids_to_update, lemma_upsert_in_place, record_of, upserted, upsert_installed, InstalledAppView, InstalledState,
};
use crate::sys::is_join_of;
use crate::text::{ascii_lower, decimal, decimal_string, eq_ignore_ascii_case, push_line, string_views};
use vstd::prelude::*;

verus! {

/// What `update` is asked to do.
#[derive(Debug)]
pub enum UpdatePlan {
    /// Update every installed app, then start the self-updater.
    AllApps,
    /// Only start the self-updater.
    SelfOnly,
    /// Update the one app named so.
    OneApp(String),
}

/// What an update plan holds, as values.
pub enum UpdatePlanView {
    AllApps,
    SelfOnly,
    OneApp(Seq<char>),
}

impl View for UpdatePlan {
    type V = UpdatePlanView;

    open spec fn view(&self) -> UpdatePlanView {
        match self {
            UpdatePlan::AllApps => UpdatePlanView::AllApps,
            UpdatePlan::SelfOnly => UpdatePlanView::SelfOnly,
            UpdatePlan::OneApp(a) => UpdatePlanView::OneApp(a@),
        }
    }
}

/// The plan for `update` with an optional `target` and the `--all` flag, or
/// the error that the arguments earn.
pub open spec fn planned_update(target: Option<Seq<char>>, all: bool) -> Result<
    UpdatePlanView,
    Seq<char>,
> {
    if all {
        if target is Some {
            Err("Use either update <app> or update --all, not both"@)
        } else {
            Ok(UpdatePlanView::AllApps)
        }
    } else {
        match target {
            None => Err("Specify an app id, or use --all"@),
            Some(t) => if ascii_lower(t) == ascii_lower("all"@) {
                Ok(UpdatePlanView::AllApps)
            } else if ascii_lower(normalized_app_id(t)) == ascii_lower("cpkg"@) {
                Ok(UpdatePlanView::SelfOnly)
            } else {
                Ok(UpdatePlanView::OneApp(t))
            },
        }
    }
}

/// The view of an optional string slice.
pub open spec fn opt_view(o: Option<&str>) -> Option<Seq<char>> {
    match o {
        Some(s) => Some(s@),
        None => None,
    }
}

/// The view of a plan or an error.
pub open spec fn plan_result_view(r: Result<UpdatePlan, String>) -> Result<
    UpdatePlanView,
    Seq<char>,
> {
    match r {
        Ok(p) => Ok(p@),
        Err(e) => Err(e@),
    }
}

/// Decides what `update` does: `--all` or the target `all` (any case)
/// updates every app and then the tool itself, the target `cpkg` updates the
/// tool itself, any other target updates that app.
pub fn update_apps(target: Option<&str>, all_flag: bool) -> (r: Result<UpdatePlan, String>)
    ensures
        plan_result_view(r) == planned_update(opt_view(target), all_flag),
{
    if all_flag {
        if target.is_some() {
            return Err("Use either update <app> or update --all, not both".to_owned());
        }
        return Ok(UpdatePlan::AllApps);
    }
    let target = match target {
        Some(t) => t,
        None => return Err("Specify an app id, or use --all".to_owned()),
    };
    if eq_ignore_ascii_case(target, "all") {
        return Ok(UpdatePlan::AllApps);
    }
    if eq_ignore_ascii_case(normalize_app_id(target).as_str(), "cpkg") {
        return Ok(UpdatePlan::SelfOnly);
    }
    Ok(UpdatePlan::OneApp(target.to_owned()))
}

/// What `update` has just done.
#[derive(Debug)]
pub enum UpdateEvent {
    Start,
    AllUpdated(Result<(), String>),
    SelfUpdated(Result<(), String>),
    OneUpdated(Result<(), String>),
}

/// What `update` does next.
#[derive(Debug)]
pub enum UpdateAction {
    UpdateAll,
    SelfUpdate,
    UpdateOne(String),
    Done(Result<(), String>),
}

/// Whether `a` is what `update` does after `e`, following `plan`: updating
/// all apps comes first and is followed by the self-update only when it
/// succeeded; its error ends the command.
pub open spec fn update_step_is(plan: UpdatePlan, e: UpdateEvent, a: UpdateAction) -> bool {
    match e {
        UpdateEvent::Start => match plan {
            UpdatePlan::AllApps => a is UpdateAll,
            UpdatePlan::SelfOnly => a is SelfUpdate,
            UpdatePlan::OneApp(t) => a matches UpdateAction::UpdateOne(u) && u@ == t@,
        },
        UpdateEvent::AllUpdated(Ok(())) => a is SelfUpdate,
        UpdateEvent::AllUpdated(Err(x)) => a matches UpdateAction::Done(Err(y)) && y@ == x@,
        UpdateEvent::SelfUpdated(r) | UpdateEvent::OneUpdated(r) => a matches UpdateAction::Done(
            q,
        ) && unit_result_view(q) == unit_result_view(r),
    }
}

/// `update` ends with the result of the last thing it ran: after the
/// self-update or the update of one app, with exactly that success or
/// error; after updating all apps, with that error when it failed, and
/// otherwise it goes on to the self-update.
pub proof fn lemma_update_ends_with_last_result(plan: UpdatePlan, e: UpdateEvent, a: UpdateAction)
    requires
        update_step_is(plan, e, a),
    ensures
        e is Start ==> match plan {
            UpdatePlan::AllApps => a is UpdateAll,
            UpdatePlan::SelfOnly => a is SelfUpdate,
            UpdatePlan::OneApp(t) => a matches UpdateAction::UpdateOne(u) && u@ == t@,
        },
        e matches UpdateEvent::SelfUpdated(r) ==> (a matches UpdateAction::Done(q) && (q is Ok
            <==> r is Ok) && (r matches Err(x) ==> (q matches Err(y) && y@ == x@))),
        e matches UpdateEvent::OneUpdated(r) ==> (a matches UpdateAction::Done(q) && (q is Ok
            <==> r is Ok) && (r matches Err(x) ==> (q matches Err(y) && y@ == x@))),
        e matches UpdateEvent::AllUpdated(r) ==> match r {
            Ok(()) => a is SelfUpdate,
            Err(x) => a matches UpdateAction::Done(q) && (q matches Err(y) && y@ == x@),
        },
{
}

/// The next step of `update` under `plan`, after `event`.
pub fn update_step(plan: &UpdatePlan, event: UpdateEvent) -> (a: UpdateAction)
    ensures
        update_step_is(*plan, event, a),
{
    match event {
        UpdateEvent::Start => match plan {
            UpdatePlan::AllApps => UpdateAction::UpdateAll,
            UpdatePlan::SelfOnly => UpdateAction::SelfUpdate,
            UpdatePlan::OneApp(t) => UpdateAction::UpdateOne(t.clone()),
        },
        UpdateEvent::AllUpdated(Ok(())) => UpdateAction::SelfUpdate,
        UpdateEvent::AllUpdated(Err(x)) => UpdateAction::Done(Err(x)),
        UpdateEvent::SelfUpdated(r) => UpdateAction::Done(r),
        UpdateEvent::OneUpdated(r) => UpdateAction::Done(r),
    }
}

/// A command of the tool, with its arguments.
#[allow(inconsistent_fields)]
pub enum Command {
    List { state_file: String },
    Show { app: String, apps_dir: String },
    Validate { app: Option<String>, apps_dir: String },
    Install { app: String, apps_dir: String, out_dir: String, state_file: String },
    Update {
        target: Option<String>,
        all: bool,
        apps_dir: String,
        out_dir: String,
        state_file: String,
    },
    Remove { app: String, state_file: String },
}

/// The work that a command asks for.
#[allow(inconsistent_fields)]
pub enum Task {
    List { state_file: String },
    Show { app: String, apps_dir: String },
    Validate { app: Option<String>, apps_dir: String },
    Install { app: String, apps_dir: String, out_dir: String, state_file: String },
    Update { plan: UpdatePlan, apps_dir: String, out_dir: String, state_file: String },
    Remove { app: String, state_file: String },
}

/// The view of an optional string.
pub open spec fn opt_string_view(o: Option<String>) -> Option<Seq<char>> {
    match o {
        Some(s) => Some(s@),
        None => None,
    }
}

/// Whether `t` is the work that `c` asks for: the same arguments, and for
/// `update` the plan that its target and flag give.
pub open spec fn task_of(c: Command, t: Task) -> bool {
    match c {
        Command::List { state_file } => t matches Task::List { state_file: s } && s == state_file,
        Command::Show { app, apps_dir } => t matches Task::Show { app: a, apps_dir: d } && a
            == app && d == apps_dir,
        Command::Validate { app, apps_dir } => t matches Task::Validate { app: a, apps_dir: d }
            && a == app && d == apps_dir,
        Command::Install { app, apps_dir, out_dir, state_file } => t matches Task::Install {
            app: a,
            apps_dir: d,
            out_dir: o,
            state_file: s,
        } && a == app && d == apps_dir && o == out_dir && s == state_file,
        Command::Update { target, all, apps_dir, out_dir, state_file } => t matches Task::Update {
            plan: p,
            apps_dir: d,
            out_dir: o,
            state_file: s,
        } && planned_update(opt_string_view(target), all) == Ok::<UpdatePlanView, Seq<char>>(p@)
            && d == apps_dir && o == out_dir && s == state_file,
        Command::Remove { app, state_file } => t matches Task::Remove { app: a, state_file: s }
            && a == app && s == state_file,
    }
}

/// The work that `command` asks for; fails only for an `update` whose target
/// and flag do not fit together, with the error of `update_apps`.
pub fn run(command: Command) -> (r: Result<Task, String>)
    ensures
        match r {
            Ok(t) => task_of(command, t),
            Err(e) => command matches Command::Update { target, all, .. } && planned_update(
                opt_string_view(target),
                all,
            ) == Err::<UpdatePlanView, Seq<char>>(e@),
        },
{
    match command {
        Command::List { state_file } => Ok(Task::List { state_file }),
        Command::Show { app, apps_dir } => Ok(Task::Show { app, apps_dir }),
        Command::Validate { app, apps_dir } => Ok(Task::Validate { app, apps_dir }),
        Command::Install { app, apps_dir, out_dir, state_file } => Ok(
            Task::Install { app, apps_dir, out_dir, state_file },
        ),
        Command::Update { target, all, apps_dir, out_dir, state_file } => {
            let t = match &target {
                Some(s) => Some(s.as_str()),
                None => None,
            };
            assert(opt_view(t) == opt_string_view(target));
            match update_apps(t, all) {
                Ok(plan) => Ok(Task::Update { plan, apps_dir, out_dir, state_file }),
                Err(e) => Err(e),
            }
        },
        Command::Remove { app, state_file } => Ok(Task::Remove { app, state_file }),
    }
}

/// Whether a downloaded installer was new.
#[derive(Debug, Clone, Copy, PartialEq, Eq, Structural)]
pub enum DownloadStatus {
    UpToDate,
    Downloaded,
}

/// The file at the target path already held exactly the downloaded bytes
/// (`existing` is `None` when there was no file or it could not be read).
pub fn download_status(existing: Option<&[u8]>, downloaded: &[u8]) -> (r: DownloadStatus)
    ensures
        r == DownloadStatus::UpToDate <==> (existing matches Some(e) && e@ == downloaded@),
{
    match existing {
        None => DownloadStatus::Downloaded,
        Some(e) => {
            if e.len() != downloaded.len() {
                return DownloadStatus::Downloaded;
            }
            let mut i: usize = 0;
            while i < e.len()
                invariant
                    existing == Some(e),
                    e@.len() == downloaded@.len(),
                    i <= e@.len(),
                    forall|k: int| 0 <= k < i ==> e@[k] == downloaded@[k],
                decreases e@.len() - i,
            {
                if e[i] != downloaded[i] {
                    assert(e@[i as int] != downloaded@[i as int]);
                    return DownloadStatus::Downloaded;
                }
                i = i + 1;
            }
            assert(e@ =~= downloaded@);
            DownloadStatus::UpToDate
        },
    }
}

/// What installing `app_id` reports.
pub open spec fn install_message(app_id: Seq<char>, status: DownloadStatus) -> Seq<char> {
    match status {
        DownloadStatus::UpToDate => app_id + " is already up to date."@,
        DownloadStatus::Downloaded => "Installed "@ + app_id + "."@,
    }
}

/// What updating the one app `app_id` reports.
pub open spec fn update_message(app_id: Seq<char>, status: DownloadStatus) -> Seq<char> {
    match status {
        DownloadStatus::UpToDate => app_id + " is already up to date."@,
        DownloadStatus::Downloaded => "Updated "@ + app_id + "."@,
    }
}

/// The line that reports installing `app_id`.
pub fn install_app_message(app_id: &str, status: DownloadStatus) -> (r: String)
    ensures
        r@ == install_message(app_id@, status),
{
    match status {
        DownloadStatus::UpToDate => {
            let mut r = app_id.to_owned();
            r.append(" is already up to date.");
            r
        },
        DownloadStatus::Downloaded => {
            let mut r = "Installed ".to_owned();
            r.append(app_id);
            r.append(".");
            r
        },
    }
}

/// The line that reports updating the one app `app_id`.
pub fn update_one_app_message(app_id: &str, status: DownloadStatus) -> (r: String)
    ensures
        r@ == update_message(app_id@, status),
{
    match status {
        DownloadStatus::UpToDate => {
            let mut r = app_id.to_owned();
            r.append(" is already up to date.");
            r
        },
        DownloadStatus::Downloaded => {
            let mut r = "Updated ".to_owned();
            r.append(app_id);
            r.append(".");
            r
        },
    }
}

/// The lines that show an accepted manifest of app `app`.
pub open spec fn details(app: Seq<char>, m: AppManifest) -> Seq<Seq<char>> {
    seq![
        "id: "@ + app,
        "name: "@ + m.name@,
        "repo: "@ + m.repo@,
        "description: "@ + m.description@,
        "download: "@ + m.download@,
    ]
}

/// The lines that show the manifest of `app`, or why the manifest is refused.
pub fn show_app(app: &str, manifest: &AppManifest) -> (r: Result<Vec<String>, String>)
    ensures
        r is Ok <==> problem_of(*manifest) is None,
        r matches Ok(lines) ==> string_views(lines@) == details(app@, *manifest),
        r matches Err(e) ==> problem_of(*manifest) == Some(e@),
{
    match validate_manifest(manifest) {
        Err(e) => Err(e),
        Ok(()) => {
            let mut lines: Vec<String> = Vec::new();
            let mut l = "id: ".to_owned();
            l.append(app);
            push_line(&mut lines, l);
            let mut l = "name: ".to_owned();
            l.append(manifest.name.as_str());
            push_line(&mut lines, l);
            let mut l = "repo: ".to_owned();
            l.append(manifest.repo.as_str());
            push_line(&mut lines, l);
            let mut l = "description: ".to_owned();
            l.append(manifest.description.as_str());
            push_line(&mut lines, l);
            let mut l = "download: ".to_owned();
            l.append(manifest.download.as_str());
            push_line(&mut lines, l);
            assert(string_views(lines@) =~= details(app@, *manifest));
            Ok(lines)
        },
    }
}

/// The outcome of checking one manifest file.
#[derive(Debug)]
pub struct ManifestCheck {
    pub app_id: String,
    pub result: Result<(), String>,
}

/// The outcome of updating one installed app.
#[derive(Debug)]
pub struct UpdateCheck {
    pub app_id: String,
    pub result: Result<DownloadStatus, String>,
}

/// Lines to print, and how the command ends.
#[derive(Debug)]
pub struct Report {
    pub lines: Vec<String>,
    pub result: Result<(), String>,
}

/// The line that reports one manifest check.
pub open spec fn check_line(c: ManifestCheck) -> Seq<char> {
    match c.result {
        Ok(()) => "OK: "@ + c.app_id@,
        Err(e) => "FAIL: "@ + c.app_id@ + " ("@ + e@ + ")"@,
    }
}

/// How many manifest checks failed.
pub open spec fn check_failures(cs: Seq<ManifestCheck>) -> nat
    decreases cs.len(),
{
    if cs.len() == 0 {
        0
    } else {
        check_failures(cs.drop_last()) + if cs.last().result is Err {
            1nat
        } else {
            0nat
        }
    }
}

/// The lines that report all manifest checks.
pub open spec fn check_lines(cs: Seq<ManifestCheck>) -> Seq<Seq<char>> {
    cs.map_values(|c: ManifestCheck| check_line(c))
}

/// The lines and the end of validating every manifest under `apps_dir`.
pub open spec fn validation_report(apps_dir: Seq<char>, cs: Seq<ManifestCheck>) -> (
    Seq<Seq<char>>,
    Result<(), Seq<char>>,
) {
    if cs.len() == 0 {
        (seq![], Err("No JSON files found in "@ + apps_dir))
    } else if check_failures(cs) > 0 {
        (check_lines(cs), Err("Validation failed for "@ + decimal(check_failures(cs)) + " app(s)"@))
    } else {
        (check_lines(cs).push("All manifests are valid."@), Ok(()))
    }
}

/// The view of a result that carries an error message.
pub open spec fn unit_result_view(r: Result<(), String>) -> Result<(), Seq<char>> {
    match r {
        Ok(()) => Ok(()),
        Err(e) => Err(e@),
    }
}

/// Validation succeeds exactly when there was at least one manifest and
/// every check passed; the count it reports is the number of failed checks,
/// which is positive exactly when some check failed.
pub proof fn lemma_validation_ok_iff_all_pass(apps_dir: Seq<char>, cs: Seq<ManifestCheck>)
    ensures
        validation_report(apps_dir, cs).1 is Ok <==> (cs.len() > 0 && forall|i: int|
            0 <= i < cs.len() ==> (#[trigger] cs[i]).result is Ok),
        check_failures(cs) <= cs.len(),
        check_failures(cs) > 0 <==> exists|i: int|
            0 <= i < cs.len() && (#[trigger] cs[i]).result is Err,
    decreases cs.len(),
{
    if cs.len() > 0 {
        let init = cs.drop_last();
        lemma_validation_ok_iff_all_pass(apps_dir, init);
        if check_failures(cs) > 0 {
            if cs.last().result is Err {
                assert(cs[cs.len() - 1].result is Err);
            } else {
                let i = choose|i: int| 0 <= i < init.len() && (#[trigger] init[i]).result is Err;
                assert(cs[i] == init[i]);
            }
        } else {
            assert forall|i: int| 0 <= i < cs.len() implies (#[trigger] cs[i]).result is Ok by {
                if i < cs.len() - 1 {
                    assert(cs[i] == init[i]);
                }
            }
        }
    }
}

/// Reports the checks of all manifest files under `apps_dir`: one line per
/// file, then success only when every check passed and there was a file.
pub fn validate_apps(apps_dir: &str, checks: &Vec<ManifestCheck>) -> (r: Report)
    ensures
        (string_views(r.lines@), unit_result_view(r.result)) == validation_report(
            apps_dir@,
            checks@,
        ),
{
    let mut lines: Vec<String> = Vec::new();
    if checks.len() == 0 {
        let mut e = "No JSON files found in ".to_owned();
        e.append(apps_dir);
        assert(string_views(lines@) =~= Seq::<Seq<char>>::empty());
        return Report { lines, result: Err(e) };
    }
    let ghost cs = checks@;
    let mut failed: u64 = 0;
    let mut i: usize = 0;
    assert(string_views(lines@) =~= check_lines(cs.take(0)));
    while i < checks.len()
        invariant
            cs == checks@,
            i <= cs.len(),
            failed == check_failures(cs.take(i as int)),
            failed <= i,
            string_views(lines@) == check_lines(cs.take(i as int)),
        decreases cs.len() - i,
    {
        let c = &checks[i];
        let mut line;
        match &c.result {
            Ok(()) => {
                line = "OK: ".to_owned();
                line.append(c.app_id.as_str());
            },
            Err(e) => {
                line = "FAIL: ".to_owned();
                line.append(c.app_id.as_str());
                line.append(" (");
                line.append(e.as_str());
                line.append(")");
                failed = failed + 1;
            },
        }
        push_line(&mut lines, line);
        assert(cs.take(i + 1).drop_last() =~= cs.take(i as int));
        assert(check_lines(cs.take(i + 1)) =~= check_lines(cs.take(i as int)).push(
            check_line(cs[i as int]),
        ));
        i = i + 1;
    }
    assert(cs.take(cs.len() as int) =~= cs);
    if failed > 0 {
        let mut e = "Validation failed for ".to_owned();
        e.append(decimal_string(failed).as_str());
        e.append(" app(s)");
        Report { lines, result: Err(e) }
    } else {
        push_line(&mut lines, "All manifests are valid.".to_owned());
        Report { lines, result: Ok(()) }
    }
}

/// Reports validating the one app `app_id`, given the outcome of reading its
/// manifest: the read error or the manifest's problem, with no line; or the
/// line `OK: <id>` and success.
pub fn validate_app(app_id: &str, read: Result<AppManifest, String>) -> (r: Report)
    ensures
        match read {
            Err(e) => r.lines@.len() == 0 && unit_result_view(r.result) == Err::<(), Seq<char>>(
                e@,
            ),
            Ok(m) => match problem_of(m) {
                Some(p) => r.lines@.len() == 0 && unit_result_view(r.result) == Err::<
                    (),
                    Seq<char>,
                >(p),
                None => string_views(r.lines@) == seq!["OK: "@ + app_id@] && r.result is Ok,
            },
        },
{
    let mut lines: Vec<String> = Vec::new();
    match read {
        Err(e) => Report { lines, result: Err(e) },
        Ok(m) => match validate_manifest(&m) {
            Err(e) => Report { lines, result: Err(e) },
            Ok(()) => {
                let mut l = "OK: ".to_owned();
                l.append(app_id);
                push_line(&mut lines, l);
                assert(string_views(lines@) =~= seq!["OK: "@ + app_id@]);
                Report { lines, result: Ok(()) }
            },
        },
    }
}

/// The line that reports updating one app of many.
pub open spec fn update_line(c: UpdateCheck) -> Seq<char> {
    match c.result {
        Ok(DownloadStatus::UpToDate) => "OK: "@ + c.app_id@ + " is already up to date."@,
        Ok(DownloadStatus::Downloaded) => "OK: Updated "@ + c.app_id@ + "."@,
        Err(e) => "FAIL: "@ + c.app_id@ + " ("@ + e@ + ")"@,
    }
}

/// The line that reports updating one app of many.
pub fn update_check_line(c: &UpdateCheck) -> (r: String)
    ensures
        r@ == update_line(*c),
{
    let mut line;
    match &c.result {
        Ok(DownloadStatus::UpToDate) => {
            line = "OK: ".to_owned();
            line.append(c.app_id.as_str());
            line.append(" is already up to date.");
        },
        Ok(DownloadStatus::Downloaded) => {
            line = "OK: Updated ".to_owned();
            line.append(c.app_id.as_str());
            line.append(".");
        },
        Err(e) => {
            line = "FAIL: ".to_owned();
            line.append(c.app_id.as_str());
            line.append(" (");
            line.append(e.as_str());
            line.append(")");
        },
    }
    line
}

/// How many app updates failed.
pub open spec fn update_failures(cs: Seq<UpdateCheck>) -> nat
    decreases cs.len(),
{
    if cs.len() == 0 {
        0
    } else {
        update_failures(cs.drop_last()) + if cs.last().result is Err {
            1nat
        } else {
            0nat
        }
    }
}

/// The lines that report updating apps.
pub open spec fn update_lines(cs: Seq<UpdateCheck>) -> Seq<Seq<char>> {
    cs.map_values(|c: UpdateCheck| update_line(c))
}

/// The lines and the end of updating all apps.
pub open spec fn update_report(cs: Seq<UpdateCheck>) -> (Seq<Seq<char>>, Result<(), Seq<char>>) {
    if update_failures(cs) > 0 {
        (update_lines(cs), Err("Update failed for "@ + decimal(update_failures(cs)) + " app(s)"@))
    } else {
        (
            update_lines(cs).push(
                "All installed apps are up to date (excluding cpkg self-update).\n"@,
            ),
            Ok(()),
        )
    }
}

/// Updating all apps succeeds exactly when no app update failed; the count
/// it reports is the number of failed updates, positive exactly when some
/// update failed.
pub proof fn lemma_update_all_ok_iff_none_failed(cs: Seq<UpdateCheck>)
    ensures
        update_report(cs).1 is Ok <==> forall|i: int|
            0 <= i < cs.len() ==> (#[trigger] cs[i]).result is Ok,
        update_failures(cs) <= cs.len(),
        update_failures(cs) > 0 <==> exists|i: int|
            0 <= i < cs.len() && (#[trigger] cs[i]).result is Err,
    decreases cs.len(),
{
    if cs.len() > 0 {
        let init = cs.drop_last();
        lemma_update_all_ok_iff_none_failed(init);
        if update_failures(cs) > 0 {
            if cs.last().result is Err {
                assert(cs[cs.len() - 1].result is Err);
            } else {
                let i = choose|i: int| 0 <= i < init.len() && (#[trigger] init[i]).result is Err;
                assert(cs[i] == init[i]);
            }
        } else {
            assert forall|i: int| 0 <= i < cs.len() implies (#[trigger] cs[i]).result is Ok by {
                if i < cs.len() - 1 {
                    assert(cs[i] == init[i]);
                }
            }
        }
    }
}

/// Reports the updates of all installed apps: one line per app, then success
/// only when no update failed.
pub fn update_all_apps(checks: &Vec<UpdateCheck>) -> (r: Report)
    ensures
        (string_views(r.lines@), unit_result_view(r.result)) == update_report(checks@),
{
    let mut lines: Vec<String> = Vec::new();
    let ghost cs = checks@;
    let mut failed: u64 = 0;
    let mut i: usize = 0;
    assert(string_views(lines@) =~= update_lines(cs.take(0)));
    while i < checks.len()
        invariant
            cs == checks@,
            i <= cs.len(),
            failed == update_failures(cs.take(i as int)),
            failed <= i,
            string_views(lines@) == update_lines(cs.take(i as int)),
        decreases cs.len() - i,
    {
        let c = &checks[i];
        let mut line;
        match &c.result {
            Ok(DownloadStatus::UpToDate) => {
                line = "OK: ".to_owned();
                line.append(c.app_id.as_str());
                line.append(" is already up to date.");
            },
            Ok(DownloadStatus::Downloaded) => {
                line = "OK: Updated ".to_owned();
                line.append(c.app_id.as_str());
                line.append(".");
            },
            Err(e) => {
                line = "FAIL: ".to_owned();
                line.append(c.app_id.as_str());
                line.append(" (");
                line.append(e.as_str());
                line.append(")");
                failed = failed + 1;
            },
        }
        push_line(&mut lines, line);
        assert(cs.take(i + 1).drop_last() =~= cs.take(i as int));
        assert(update_lines(cs.take(i + 1)) =~= update_lines(cs.take(i as int)).push(
            update_line(cs[i as int]),
        ));
        i = i + 1;
    }
    assert(cs.take(cs.len() as int) =~= cs);
    if failed > 0 {
        let mut e = "Update failed for ".to_owned();
        e.append(decimal_string(failed).as_str());
        e.append(" app(s)");
        Report { lines, result: Err(e) }
    } else {
        push_line(
            &mut lines,
            "All installed apps are up to date (excluding cpkg self-update).\n".to_owned(),
        );
        Report { lines, result: Ok(()) }
    }
}

// ---------------------------------------------------------------------------
// Updating every installed app, one step at a time.

/// How updating all apps begins.
#[derive(Debug)]
pub enum UpdateAllStart {
    /// No app is installed: print this line, and write nothing.
    NothingToUpdate(String),
    /// Go through the apps.
    Run(UpdateAllRun),
}

/// What updating all apps does next.
#[derive(Debug)]
pub enum UpdateAllAction {
    /// Read the manifest of this app.
    ReadManifest(String),
    /// Download the installer from this URL.
    Download(String),
    /// Write the state and report.
    Finish,
}

/// The progress of updating all installed apps: the state so far, the ids
/// to go through, one check per id gone through, and the accepted manifest
/// of the current app while its installer is downloaded.
#[derive(Debug)]
pub struct UpdateAllRun {
    pub state: InstalledState,
    pub out_dir: String,
    pub ids: Vec<String>,
    pub checks: Vec<UpdateCheck>,
    pub pending: Option<AppManifest>,
}

/// The view of an app update's outcome.
pub open spec fn outcome_view(r: Result<DownloadStatus, String>) -> Result<DownloadStatus, Seq<char>> {
    match r {
        Ok(s) => Ok(s),
        Err(e) => Err(e@),
    }
}

/// Whether the checks grew by one, for `id` with outcome `res`.
pub open spec fn one_check_added(
    old: Seq<UpdateCheck>,
    new: Seq<UpdateCheck>,
    id: Seq<char>,
    res: Result<DownloadStatus, Seq<char>>,
) -> bool {
    &&& new.len() == old.len() + 1
    &&& new.drop_last() == old
    &&& new.last().app_id@ == id
    &&& outcome_view(new.last().result) == res
}

/// Every record of `new` whose id names the tool itself is the record of
/// `old` at the same index.
pub open spec fn keeps_self_records(old: Seq<InstalledAppView>, new: Seq<InstalledAppView>) -> bool {
    forall|k: int|
        0 <= k < old.len() && is_self_id(old[k].app_id) ==> #[trigger] new[k] == old[k]
}

impl UpdateAllRun {
    /// The checks are those of the first ids, every id is an installed app
    /// that is not the tool itself, and a manifest waits only while there is
    /// a current app.
    pub open spec fn wf(&self) -> bool {
        &&& self.checks@.len() <= self.ids@.len()
        &&& self.pending is Some ==> self.checks@.len() < self.ids@.len()
        &&& forall|k: int|
            0 <= k < self.ids@.len() ==> !is_self_id(#[trigger] self.ids@[k]@) && ids_of(
                self.state@,
            ).contains(self.ids@[k]@)
        &&& forall|k: int|
            0 <= k < self.checks@.len() ==> #[trigger] self.checks@[k].app_id@ == self.ids@[k]@
    }

    /// Whether a step left everything but the checks and the waiting
    /// manifest as it was.
    pub open spec fn same_run(&self, other: &Self) -> bool {
        &&& self.state@ == other.state@
        &&& self.out_dir@ == other.out_dir@
        &&& self.ids@ == other.ids@
    }

    /// What to do next: download for the waiting manifest, read the manifest
    /// of the next app, or finish.
    pub fn next_action(&self) -> (a: UpdateAllAction)
        ensures
            match self.pending {
                Some(m) => a matches UpdateAllAction::Download(u) && u@ == m.download@,
                None => if self.checks@.len() < self.ids@.len() {
                    a matches UpdateAllAction::ReadManifest(id) && id@
                        == self.ids@[self.checks@.len() as int]@
                } else {
                    a is Finish
                },
            },
    {
        match &self.pending {
            Some(m) => UpdateAllAction::Download(m.download.clone()),
            None => {
                if self.checks.len() < self.ids.len() {
                    UpdateAllAction::ReadManifest(self.ids[self.checks.len()].clone())
                } else {
                    UpdateAllAction::Finish
                }
            },
        }
    }

    /// Takes the outcome of reading the current app's manifest: a manifest
    /// that was read and is accepted waits for its download; otherwise the
    /// app fails with the read error or the manifest's problem.
    pub fn manifest_read(&mut self, read: Result<AppManifest, String>)
        ensures
            final(self).same_run(old(self)),
            old(self).wf() ==> final(self).wf(),
            ({
                let i = old(self).checks@.len() as int;
                if old(self).pending is None && i < old(self).ids@.len() {
                    let id = old(self).ids@[i]@;
                    match read {
                        Err(e) => final(self).pending is None && one_check_added(
                            old(self).checks@,
                            final(self).checks@,
                            id,
                            Err(e@),
                        ),
                        Ok(m) => match problem_of(m) {
                            Some(p) => final(self).pending is None && one_check_added(
                                old(self).checks@,
                                final(self).checks@,
                                id,
                                Err(p),
                            ),
                            None => final(self).pending == Some(m) && final(self).checks@
                                == old(self).checks@,
                        },
                    }
                } else {
                    final(self).pending == old(self).pending && final(self).checks@ == old(
                        self,
                    ).checks@
                }
            }),
    {
        if self.pending.is_some() || self.checks.len() >= self.ids.len() {
            return;
        }
        let id = self.ids[self.checks.len()].clone();
        match read {
            Err(e) => {
                self.checks.push(UpdateCheck { app_id: id, result: Err(e) });
                assert(self.checks@.drop_last() =~= old(self).checks@);
            },
            Ok(m) => match validate_manifest(&m) {
                Err(e) => {
                    self.checks.push(UpdateCheck { app_id: id, result: Err(e) });
                    assert(self.checks@.drop_last() =~= old(self).checks@);
                },
                Ok(()) => {
                    self.pending = Some(m);
                },
            },
        }
    }

    /// Takes the outcome of downloading the current app's installer: on
    /// success the app is recorded as installed now, in place of its record;
    /// the app's check says how it went.
    pub fn downloaded(&mut self, result: Result<DownloadStatus, String>)
        ensures
            final(self).out_dir@ == old(self).out_dir@,
            final(self).ids@ == old(self).ids@,
            old(self).wf() ==> {
                &&& final(self).wf()
                &&& ids_of(final(self).state@) == ids_of(old(self).state@)
                &&& keeps_self_records(old(self).state@, final(self).state@)
            },
            ({
                let o = *old(self);
                let f = *final(self);
                let i = o.checks@.len() as int;
                match o.pending {
                    Some(m) => if i < o.ids@.len() {
                        let id = o.ids@[i]@;
                        &&& f.pending is None
                        &&& match result {
                            Err(e) => f.state@ == o.state@ && one_check_added(
                                o.checks@,
                                f.checks@,
                                id,
                                Err(e@),
                            ),
                            Ok(st) => if url_file_name(m.download@).len() == 0 {
                                f.state@ == o.state@ && one_check_added(
                                    o.checks@,
                                    f.checks@,
                                    id,
                                    Err("download URL has no file name"@),
                                )
                            } else {
                                ||| (exists|at: u64|
                                    installed_as(o.state@, f.state@, id, m, o.out_dir@, at))
                                    && one_check_added(o.checks@, f.checks@, id, Ok(st))
                                ||| f.state@ == o.state@ && f.checks@.len() == o.checks@.len() + 1
                                    && f.checks@.drop_last() == o.checks@ && f.checks@.last().app_id@
                                    == id && (f.checks@.last().result matches Err(e)
                                    && "System time error: "@.is_prefix_of(e@))
                            },
                        }
                    } else {
                        f.state@ == o.state@ && f.checks@ == o.checks@ && f.pending == o.pending
                    },
                    None => f.state@ == o.state@ && f.checks@ == o.checks@ && f.pending is None,
                }
            }),
    {
        if self.checks.len() >= self.ids.len() {
            return;
        }
        let m = match self.pending.take() {
            Some(m) => m,
            None => return,
        };
        let id = self.ids[self.checks.len()].clone();
        let ghost old_state = self.state@;
        match result {
            Err(e) => {
                self.checks.push(UpdateCheck { app_id: id, result: Err(e) });
                assert(self.checks@.drop_last() =~= old(self).checks@);
            },
            Ok(st) => {
                let r = upsert_installed(&mut self.state, id.as_str(), &m, self.out_dir.as_str());
                let ghost new_state = self.state@;
                let ghost at: u64 = if r is Ok {
                    choose|at: u64| installed_as(old_state, new_state, id@, m, self.out_dir@, at)
                } else {
                    0
                };
                proof {
                    if old(self).wf() {
                        lemma_has_id_ids_of(old_state, id@);
                        if r is Ok {
                            let file = choose|file: Seq<char>|
                                {
                                    &&& self.state@ == upserted(
                                        old_state,
                                        #[trigger] record_of(id@, m, file, at),
                                    )
                                    &&& is_join_of(self.out_dir@, url_file_name(m.download@), file)
                                };
                            lemma_upsert_in_place(old_state, record_of(id@, m, file, at));
                            assert forall|k: int|
                                0 <= k < old_state.len() && is_self_id(
                                    old_state[k].app_id,
                                ) implies #[trigger] self.state@[k] == old_state[k] by {
                                assert(old_state[k].app_id != id@);
                            }
                        }
                    }
                }
                match r {
                    Ok(()) => {
                        self.checks.push(UpdateCheck { app_id: id, result: Ok(st) });
                        assert(self.checks@.drop_last() =~= old(self).checks@);
                        assert(self.state@ == new_state);
                        assert(installed_as(old_state, self.state@, id@, m, old(self).out_dir@, at));
                    },
                    Err(e) => {
                        self.checks.push(UpdateCheck { app_id: id, result: Err(e) });
                        assert(self.checks@.drop_last() =~= old(self).checks@);
                    },
                }
            },
        }
    }

    /// The state to write, and the report of all the apps' updates.
    pub fn finish(self) -> (r: (InstalledState, Report))
        ensures
            r.0@ == self.state@,
            (string_views(r.1.lines@), unit_result_view(r.1.result)) == update_report(
                self.checks@,
            ),
    {
        let report = update_all_apps(&self.checks);
        (self.state, report)
    }
}

/// How updating all apps begins with `state`: nothing to do, with its line,
/// when no app is installed; otherwise a run through the ids of the installed
/// apps other than the tool itself.
pub fn start_update_all(state: InstalledState, out_dir: &str) -> (r: UpdateAllStart)
    ensures
        state@.len() == 0 <==> r is NothingToUpdate,
        r matches UpdateAllStart::NothingToUpdate(line) ==> line@
            == "No installed apps to update."@,
        r matches UpdateAllStart::Run(run) ==> {
            &&& run.wf()
            &&& run.state@ == state@
            &&& run.out_dir@ == out_dir@
            &&& string_views(run.ids@) == ids_to_update(state@)
            &&& run.checks@.len() == 0
            &&& run.pending is None
        },
{
    if state.apps.len() == 0 {
        return UpdateAllStart::NothingToUpdate("No installed apps to update.".to_owned());
    }
    let ids = apps_to_update(&state);
    proof {
        lemma_ids_to_update(state@);
        assert forall|k: int| 0 <= k < ids@.len() implies !is_self_id(#[trigger] ids@[k]@)
            && ids_of(state@).contains(ids@[k]@) by {
            assert(ids_to_update(state@)[k] == ids@[k]@);
            let j = choose|j: int|
                0 <= j < state@.len() && state@[j].app_id == #[trigger] ids_to_update(state@)[k];
            assert(ids_of(state@)[j] == ids@[k]@);
        }
    }
    let run = UpdateAllRun {
        state,
        out_dir: out_dir.to_owned(),
        ids,
        checks: Vec::new(),
        pending: None,
    };
    UpdateAllStart::Run(run)
}

} // verus!
