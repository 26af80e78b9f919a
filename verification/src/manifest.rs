//! App manifests of the registry: their validation, the installer file name
//! that a manifest's download URL names, and where a manifest is found.

use crate::sys::{is_join_of, join_path};
use crate::text::{
    is_white_space, trim_end, trim_start,
    contains, occurs_at, occurs_in, prefix_before, split_char, split_on, str_equal, starts_with, strip_suffixes, suffix_after_last,
    trim, trim_end_matches, trimmed,
};
use vstd::prelude::*;

verus! {

/// The manifest of one app, as the registry's JSON file holds it.
#[derive(Debug)]
pub struct AppManifest {
    pub name: String,
    pub repo: String,
    pub description: String,
    pub download: String,
}

/// Why a manifest is refused, checked in this order; `None` when it is
/// accepted.
pub open spec fn manifest_problem(
    name: Seq<char>,
    repo: Seq<char>,
    description: Seq<char>,
    download: Seq<char>,
) -> Option<Seq<char>> {
    if trimmed(name).len() == 0 {
        Some("name must not be empty"@)
    } else if trimmed(description).len() == 0 {
        Some("description must not be empty"@)
    } else if !"https://github.com/"@.is_prefix_of(repo) {
        Some("repo must start with https://github.com/"@)
    } else if !"https://github.com/"@.is_prefix_of(download) {
        Some("download must start with https://github.com/"@)
    } else if !occurs_in(download, "/releases/latest/download/"@) {
        Some("download should use /releases/latest/download/"@)
    } else {
        None
    }
}

/// Why `m` is refused, or `None` when it is accepted.
pub open spec fn problem_of(m: AppManifest) -> Option<Seq<char>> {
    manifest_problem(m.name@, m.repo@, m.description@, m.download@)
}

/// Accepts a manifest whose name and description are not blank, whose repo
/// and download point to GitHub, and whose download is a latest-release
/// asset; otherwise says which of these fails first.
pub fn validate_manifest(manifest: &AppManifest) -> (r: Result<(), String>)
    ensures
        r is Ok <==> problem_of(*manifest) is None,
        r matches Err(e) ==> problem_of(*manifest) == Some(e@),
{
    if trim(manifest.name.as_str()).unicode_len() == 0 {
        return Err("name must not be empty".to_owned());
    }
    if trim(manifest.description.as_str()).unicode_len() == 0 {
        return Err("description must not be empty".to_owned());
    }
    if !starts_with(manifest.repo.as_str(), "https://github.com/") {
        return Err("repo must start with https://github.com/".to_owned());
    }
    if !starts_with(manifest.download.as_str(), "https://github.com/") {
        return Err("download must start with https://github.com/".to_owned());
    }
    if !contains(manifest.download.as_str(), "/releases/latest/download/") {
        return Err("download should use /releases/latest/download/".to_owned());
    }
    Ok(())
}

/// The file name that a download URL names: the part of its path after the
/// last `/`, with any query string left out and white space trimmed.
pub open spec fn url_file_name(url: Seq<char>) -> Seq<char> {
    trimmed(split_on(split_on(url, '?')[0], '/').last())
}

/// The file name at the end of `url`, or an error when there is none.
pub fn file_name_from_download_url(url: &str) -> (r: Result<String, String>)
    ensures
        r is Ok <==> url_file_name(url@).len() > 0,
        r matches Ok(name) ==> name@ == url_file_name(url@),
        r matches Err(e) ==> e@ == "download URL has no file name"@,
{
    let no_query = prefix_before(url, '?');
    let name = trim(suffix_after_last(no_query, '/'));
    if name.unicode_len() == 0 {
        return Err("download URL has no file name".to_owned());
    }
    Ok(name.to_owned())
}

/// The id of an app as the user may type it: white space trimmed and any
/// trailing `.json` removed.
pub open spec fn normalized_app_id(app: Seq<char>) -> Seq<char> {
    strip_suffixes(trimmed(app), ".json"@)
}

/// `app` as an app id: trimmed, without a trailing `.json`.
pub fn normalize_app_id(app: &str) -> (r: String)
    ensures
        r@ == normalized_app_id(app@),
{
    trim_end_matches(trim(app), ".json").to_owned()
}

/// The name of the manifest file of `app`: `app` without trailing `.json`,
/// then `.json`.
pub open spec fn manifest_file_name(app: Seq<char>) -> Seq<char> {
    strip_suffixes(app, ".json"@) + ".json"@
}

/// The path of the manifest of `app` under `apps_dir`: `apps_dir` joined
/// with the manifest's file name.
pub fn app_manifest_path(apps_dir: &str, app: &str) -> (r: String)
    ensures
        is_join_of(apps_dir@, manifest_file_name(app@), r@),
{
    let mut file = trim_end_matches(app, ".json").to_owned();
    file.append(".json");
    join_path(apps_dir, file.as_str())
}

/// Whether a file name has the extension `json`: there is a `.` in it that
/// is not its first character, and `json` follows the last `.`.
pub open spec fn is_json_file_name(name: Seq<char>) -> bool {
    let ps = split_on(name, '.');
    &&& ps.len() >= 2
    &&& !(ps.len() == 2 && ps[0].len() == 0)
    &&& ps.last() == "json"@
}

/// Whether the file called `name` is a manifest: its extension is `json`.
pub fn has_json_extension(name: &str) -> (r: bool)
    ensures
        r == is_json_file_name(name@),
{
    let ps = split_char(name, '.');
    let ghost pv = split_on(name@, '.');
    assert(ps@.len() == pv.len());
    if ps.len() < 2 {
        return false;
    }
    if ps.len() == 2 && ps[0].unicode_len() == 0 {
        assert(pv[0] == ps[0]@);
        return false;
    }
    assert(pv.last() == ps[ps.len() - 1]@);
    str_equal(ps[ps.len() - 1], "json")
}

// ---------------------------------------------------------------------------
// Laws of manifests and app ids.

/// Whether `s` holds a character that is not white space.
pub open spec fn is_not_blank(s: Seq<char>) -> bool {
    exists|i: int| 0 <= i < s.len() && !is_white_space(#[trigger] s[i])
}

/// Whether `p` occurs somewhere in `s`.
pub open spec fn occurs_somewhere(s: Seq<char>, p: Seq<char>) -> bool {
    exists|i: int|
        #![trigger s.subrange(i, i + p.len())]
        0 <= i && i + p.len() <= s.len() && s.subrange(i, i + p.len()) == p
}

/// Trimming leaves something exactly when there is a character that is not
/// white space.
proof fn lemma_trimmed_nonempty(s: Seq<char>)
    ensures
        trimmed(s).len() > 0 <==> is_not_blank(s),
{
    let a = lemma_trim_start_skip(s);
    let ts = s.skip(a);
    let b = lemma_trim_end_take(ts);
    if b > 0 {
        assert(!is_white_space(s[a]));
    }
    if is_not_blank(s) {
        let i = choose|i: int| 0 <= i < s.len() && !is_white_space(#[trigger] s[i]);
        assert(i >= a);
        assert(!is_white_space(ts[i - a]));
        assert(i - a < b);
    }
}

/// A manifest is accepted exactly when its name and description are not
/// blank, its repo and its download begin with `https://github.com/`, and
/// its download goes through `/releases/latest/download/`. Otherwise it is
/// refused for the first of these that fails, in that order: name,
/// description, repo, download host, download path.
pub proof fn lemma_accepted_manifests(m: AppManifest)
    ensures
        problem_of(m) is None <==> {
            &&& is_not_blank(m.name@)
            &&& is_not_blank(m.description@)
            &&& "https://github.com/"@.is_prefix_of(m.repo@)
            &&& "https://github.com/"@.is_prefix_of(m.download@)
            &&& occurs_somewhere(m.download@, "/releases/latest/download/"@)
        },
        !is_not_blank(m.name@) ==> problem_of(m) == Some("name must not be empty"@),
        is_not_blank(m.name@) && !is_not_blank(m.description@) ==> problem_of(m) == Some(
            "description must not be empty"@,
        ),
        is_not_blank(m.name@) && is_not_blank(m.description@)
            && !"https://github.com/"@.is_prefix_of(m.repo@) ==> problem_of(m) == Some(
            "repo must start with https://github.com/"@,
        ),
        is_not_blank(m.name@) && is_not_blank(m.description@)
            && "https://github.com/"@.is_prefix_of(m.repo@)
            && !"https://github.com/"@.is_prefix_of(m.download@) ==> problem_of(m) == Some(
            "download must start with https://github.com/"@,
        ),
        is_not_blank(m.name@) && is_not_blank(m.description@)
            && "https://github.com/"@.is_prefix_of(m.repo@)
            && "https://github.com/"@.is_prefix_of(m.download@)
            && !occurs_somewhere(m.download@, "/releases/latest/download/"@) ==> problem_of(m)
            == Some("download should use /releases/latest/download/"@),
{
    lemma_trimmed_nonempty(m.name@);
    lemma_trimmed_nonempty(m.description@);
    let d = m.download@;
    let p = "/releases/latest/download/"@;
    if occurs_in(d, p) {
        let i = choose|i: int| occurs_at(d, i, p);
        assert(0 <= i && i + p.len() <= d.len() && d.subrange(i, i + p.len()) == p);
    }
    if occurs_somewhere(d, p) {
        let i = choose|i: int|
            #![trigger d.subrange(i, i + p.len())]
            0 <= i && i + p.len() <= d.len() && d.subrange(i, i + p.len()) == p;
        assert(occurs_at(d, i, p));
    }
}

/// `trim_start(s)` is what follows a run of white space at the start of `s`.
proof fn lemma_trim_start_skip(s: Seq<char>) -> (k: int)
    ensures
        0 <= k <= s.len(),
        trim_start(s) == s.skip(k),
        forall|j: int| 0 <= j < k ==> is_white_space(#[trigger] s[j]),
        k < s.len() ==> !is_white_space(s[k]),
    decreases s.len(),
{
    if s.len() > 0 && is_white_space(s[0]) {
        let k = lemma_trim_start_skip(s.drop_first());
        assert(s.drop_first().skip(k) =~= s.skip(k + 1));
        assert forall|j: int| 0 <= j < k + 1 implies is_white_space(#[trigger] s[j]) by {
            if j > 0 {
                assert(s[j] == s.drop_first()[j - 1]);
            }
        }
        if k + 1 < s.len() {
            assert(s[k + 1] == s.drop_first()[k]);
        }
        k + 1
    } else {
        assert(s.skip(0) =~= s);
        0
    }
}

/// `trim_end(s)` is what precedes a run of white space at the end of `s`.
proof fn lemma_trim_end_take(s: Seq<char>) -> (k: int)
    ensures
        0 <= k <= s.len(),
        trim_end(s) == s.take(k),
        forall|j: int| k <= j < s.len() ==> is_white_space(#[trigger] s[j]),
        k > 0 ==> !is_white_space(s[k - 1]),
    decreases s.len(),
{
    if s.len() > 0 && is_white_space(s.last()) {
        let k = lemma_trim_end_take(s.drop_last());
        assert(s.drop_last().take(k) =~= s.take(k));
        assert forall|j: int| k <= j < s.len() implies is_white_space(#[trigger] s[j]) by {
            if j < s.len() - 1 {
                assert(s[j] == s.drop_last()[j]);
            }
        }
        if k > 0 {
            assert(s[k - 1] == s.drop_last()[k - 1]);
        }
        k
    } else {
        assert(s.take(s.len() as int) =~= s);
        s.len() as int
    }
}

/// `m` copies of `p`, one after another.
pub open spec fn repeated(p: Seq<char>, m: nat) -> Seq<char>
    decreases m,
{
    if m == 0 {
        Seq::empty()
    } else {
        repeated(p, (m - 1) as nat) + p
    }
}

/// Removing trailing copies of `p` leaves a prefix of `s` that no longer
/// ends in `p`, and what was cut off is made of whole copies of `p`.
proof fn lemma_strip_suffixes_take(s: Seq<char>, p: Seq<char>) -> (k: int)
    ensures
        0 <= k <= s.len(),
        strip_suffixes(s, p) == s.take(k),
        p.len() > 0 ==> !p.is_suffix_of(s.take(k)),
        exists|m: nat| s.skip(k) == repeated(p, m),
    decreases s.len(),
{
    if p.len() > 0 && p.is_suffix_of(s) {
        let t = s.subrange(0, s.len() - p.len());
        let k = lemma_strip_suffixes_take(t, p);
        assert(t.take(k) =~= s.take(k));
        let m = choose|m: nat| t.skip(k) == repeated(p, m);
        assert(repeated(p, m + 1) == repeated(p, m) + p);
        assert(s.skip(k) =~= t.skip(k) + p);
        assert(s.skip(k) == repeated(p, m + 1));
        k
    } else {
        assert(s.take(s.len() as int) =~= s);
        assert(s.skip(s.len() as int) =~= repeated(p, 0));
        s.len() as int
    }
}

/// Normalizing an app id only cuts white space from its ends and `.json`
/// from its end: the id is a piece of what was typed, with its letters as
/// they were, and it has no white space at either end when it is not empty.
/// What was typed with no white space around it and not ending in `.json`
/// comes back unchanged, letter case included. Exactly the white space at
/// both ends and then every trailing `.json` are cut: the id no longer ends
/// in `.json`.
pub proof fn lemma_normalized_app_id(app: Seq<char>)
    ensures
        exists|i: int, j: int|
            0 <= i <= j <= app.len() && normalized_app_id(app) == app.subrange(i, j),
        normalized_app_id(app).len() > 0 ==> !is_white_space(normalized_app_id(app)[0]),
        (app.len() == 0 || (!is_white_space(app[0]) && !is_white_space(app.last())))
            && !".json"@.is_suffix_of(app) ==> normalized_app_id(app) == app,
        !".json"@.is_suffix_of(normalized_app_id(app)),
        exists|i: int, j: int, k: int, m: nat|
            0 <= i <= j <= k <= app.len() && normalized_app_id(app) == app.subrange(i, j)
                && app.subrange(j, k) == repeated(".json"@, m) && (forall|q: int|
                0 <= q < i ==> is_white_space(#[trigger] app[q])) && (i < app.len()
                ==> !is_white_space(app[i])) && (forall|q: int|
                k <= q < app.len() ==> is_white_space(#[trigger] app[q])) && (k > i
                ==> !is_white_space(app[k - 1])),
{
    reveal_strlit(".json");
    let a = lemma_trim_start_skip(app);
    let ts = app.skip(a);
    let b = lemma_trim_end_take(ts);
    let t = ts.take(b);
    assert(trimmed(app) == t);
    let c = lemma_strip_suffixes_take(t, ".json"@);
    assert(normalized_app_id(app) == t.take(c));
    assert(t.take(c) =~= app.subrange(a, a + c));
    let m = choose|m: nat| t.skip(c) == repeated(".json"@, m);
    assert(app.subrange(a + c, a + b) =~= t.skip(c));
    assert forall|q: int| a + b <= q < app.len() implies is_white_space(#[trigger] app[q]) by {
        assert(app[q] == ts[q - a]);
    }
    if b > 0 {
        assert(app[a + b - 1] == ts[b - 1]);
    }
    assert(0 <= a <= a + c <= a + b <= app.len() && normalized_app_id(app) == app.subrange(a, a + c)
        && app.subrange(a + c, a + b) == repeated(".json"@, m));
    if c > 0 {
        assert(app.subrange(a, a + c)[0] == app[a]);
        assert(a < app.len());
    }
    if (app.len() == 0 || (!is_white_space(app[0]) && !is_white_space(app.last())))
        && !".json"@.is_suffix_of(app) {
        if app.len() > 0 {
            assert(a == 0);
            assert(ts =~= app);
            if b < ts.len() {
                assert(is_white_space(ts[ts.len() - 1]));
            }
            assert(t =~= app);
        } else {
            assert(app.skip(a) =~= app);
            assert(t =~= app);
        }
        assert(strip_suffixes(t, ".json"@) == t);
    }
}

/// The file name of a download URL is what follows its last `/`: for a URL
/// with no `?` that ends in `/` and a name with no `/` and no white space
/// around it, that name.
pub proof fn lemma_url_file_name_is_last_segment(pre: Seq<char>, name: Seq<char>)
    requires
        !pre.contains('?'),
        !name.contains('?'),
        !name.contains('/'),
        trimmed(name) == name,
    ensures
        url_file_name(pre + seq!['/'] + name) == name,
{
    let url = pre + seq!['/'] + name;
    assert(!url.contains('?')) by {
        if url.contains('?') {
            let k = choose|k: int| 0 <= k < url.len() && url[k] == '?';
            if k < pre.len() {
                assert(pre[k] == '?');
            } else if k > pre.len() {
                assert(name[k - pre.len() - 1] == '?');
            }
        }
    }
    crate::installer::lemma_pieces_without_sep(url, '?', Seq::empty());
    assert(Seq::<char>::empty() + url =~= url);
    assert(split_on(url, '?')[0] == url);
    crate::installer::lemma_last_piece(pre, name, '/', Seq::empty());
}

/// Whether `s` has no white space at either end.
pub open spec fn has_no_outer_white_space(s: Seq<char>) -> bool {
    s.len() == 0 || (!is_white_space(s[0]) && !is_white_space(s.last()))
}

/// Text with no white space at its ends is its own trimmed form.
pub proof fn lemma_trimmed_unchanged(s: Seq<char>)
    requires
        has_no_outer_white_space(s),
    ensures
        trimmed(s) == s,
{
    let a = lemma_trim_start_skip(s);
    if s.len() > 0 {
        assert(a == 0);
    }
    assert(s.skip(a) =~= s);
    let b = lemma_trim_end_take(s);
    if b < s.len() {
        assert(is_white_space(s[s.len() - 1]));
    }
    assert(s.take(b) =~= s);
}

} // verus!
