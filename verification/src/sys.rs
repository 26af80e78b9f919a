//! The calls into std that the library makes and that Verus has no
//! specification of: file-system path joining and the system clock.

use std::time::{Duration, SystemTime, SystemTimeError, UNIX_EPOCH};
use vstd::prelude::*;

verus! {

#[verifier::external_type_specification]
#[verifier::external_body]
pub struct ExSystemTime(SystemTime);

#[verifier::external_type_specification]
#[verifier::external_body]
pub struct ExSystemTimeError(SystemTimeError);

/// A file name that a path join appends unchanged: no path separator of any
/// platform in it, and not `.` or `..`.
pub open spec fn is_plain_file_name(n: Seq<char>) -> bool {
    &&& !n.contains('/')
    &&& !n.contains('\\')
    &&& n != seq!['.']
    &&& n != seq!['.', '.']
}

/// Whether `dir` can be joined with a file name by one separator: it is
/// not empty, does not end in a separator or a drive colon, and is not a
/// verbatim (`\\?\`) Windows path, whose joins rebuild the whole path.
pub open spec fn is_simple_dir(dir: Seq<char>) -> bool {
    &&& dir.len() > 0
    &&& dir.last() != '/'
    &&& dir.last() != '\\'
    &&& dir.last() != ':'
    &&& !seq!['\\', '\\', '?', '\\'].is_prefix_of(dir)
}

/// What joining the path `dir` with the file name `name` gives as text `r`:
/// a plain file name ends the result; without a colon in it, it is the whole
/// result when `dir` is empty, and follows `dir` after one separator, `/` or
/// `\`, when `dir` is simple.
pub open spec fn is_join_of(dir: Seq<char>, name: Seq<char>, r: Seq<char>) -> bool {
    &&& is_plain_file_name(name) ==> name.is_suffix_of(r)
    &&& is_plain_file_name(name) && !name.contains(':') ==> {
        &&& dir.len() == 0 ==> r == name
        &&& is_simple_dir(dir) ==> (r == dir + seq!['/'] + name || r == dir + seq!['\\'] + name)
    }
}

/// Calls `std::path::Path::join` on `dir` and `name`, and gives the joined
/// path back as a string. The documentation of `PathBuf::push` says that the
/// path is extended by `name`, with a separator when `dir` does not end in
/// one, or replaced by it when `name` is absolute or has a prefix; on
/// Windows, a verbatim `dir` is normalized. A plain name with no colon has
/// neither root nor prefix, so it follows a simple `dir` after one separator
/// (`/`, or `\` on Windows) and is all of the result after an empty one.
/// The inputs are UTF-8, so the lossy conversion back to text loses nothing.
#[verifier::external_body]
pub(crate) fn join_path(dir: &str, name: &str) -> (r: String)
    ensures
        is_join_of(dir@, name@, r@),
{
    std::path::Path::new(dir).join(name).to_string_lossy().into_owned()
}

/// Calls `SystemTime::now`. The reading of the clock is not stated.
#[verifier::external_body]
fn system_now() -> SystemTime {
    SystemTime::now()
}

/// Calls `SystemTime::duration_since` with the Unix epoch. It fails when the
/// clock reads before the epoch; nothing is stated of either outcome.
#[verifier::external_body]
fn since_unix_epoch(t: &SystemTime) -> Result<Duration, SystemTimeError> {
    t.duration_since(UNIX_EPOCH)
}

/// Calls `Duration::as_secs`: the whole seconds of `d`, which Verus cannot
/// see inside.
#[verifier::external_body]
fn whole_seconds(d: &Duration) -> u64 {
    d.as_secs()
}

/// Renders a `SystemTimeError` through its `Display` impl; the text is not
/// stated.
#[verifier::external_body]
fn time_error_text(e: &SystemTimeError) -> String {
    format!("{e}")
}

/// The current time in whole seconds since the Unix epoch, or an error that
/// begins with `System time error: ` when the clock reads before the epoch.
pub fn now_unix_seconds() -> (r: Result<u64, String>)
    ensures
        r matches Err(e) ==> "System time error: "@.is_prefix_of(e@),
{
    let now = system_now();
    match since_unix_epoch(&now) {
        Ok(d) => Ok(whole_seconds(&d)),
        Err(e) => {
            let mut msg = "System time error: ".to_owned();
            let ghost prefix = msg@;
            msg.append(time_error_text(&e).as_str());
            assert(msg@.subrange(0, prefix.len() as int) =~= prefix);
            Err(msg)
        },
    }
}

} // verus!
