//! The decisions of the Windows installer: which release to download, how to
//! relaunch with administrator rights, how to extend the machine `PATH`, and
//! what the installer tells its user.

use crate::text::{
    ascii_lower, contains, contains_ignore_ascii_case, decimal, decimal_string, eq_ignore_ascii_case,
    join_strings, join_with, lemma_pieces_nonempty, lines, lines_of, occurs_in, pieces_from,
    push_line, split_char, split_on, split_whitespace, string_views, trim, trimmed, views, words,
};
use crate::json::{get_member, member, parse_json, parsed_json, Json};
use vstd::prelude::*;

verus! {

/// The release channel to install from.
#[derive(Debug, Clone, Copy, PartialEq, Eq, Structural)]
pub enum UpdateChannel {
    Stable,
    Nightly,
}

/// The name of a channel on the command line.
pub open spec fn channel_name(c: UpdateChannel) -> Seq<char> {
    match c {
        UpdateChannel::Stable => "stable"@,
        UpdateChannel::Nightly => "nightly"@,
    }
}

impl UpdateChannel {
    /// The name of the channel on the command line.
    pub fn as_str(self) -> (r: &'static str)
        ensures
            r@ == channel_name(self),
    {
        match self {
            UpdateChannel::Stable => "stable",
            UpdateChannel::Nightly => "nightly",
        }
    }
}

/// Whether an argument must be put in double quotes on a command line.
pub open spec fn needs_quotes(v: Seq<char>) -> bool {
    v.len() == 0 || v.contains(' ') || v.contains('\t') || v.contains('"')
}

/// `v` with every double quote doubled.
pub open spec fn double_quotes(v: Seq<char>) -> Seq<char>
    decreases v.len(),
{
    if v.len() == 0 {
        v
    } else {
        double_quotes(v.drop_last()) + if v.last() == '"' {
            seq!['"', '"']
        } else {
            seq![v.last()]
        }
    }
}

/// `v` as one argument of a Windows command line.
pub open spec fn quoted_arg(v: Seq<char>) -> Seq<char> {
    if needs_quotes(v) {
        seq!['"'] + double_quotes(v) + seq!['"']
    } else {
        v
    }
}

/// `value` as one argument of a Windows command line: put in double quotes,
/// with inner double quotes doubled, when it is empty or holds a space, a tab
/// or a double quote; unchanged otherwise.
pub fn quote_arg(value: &str) -> (r: String)
    ensures
        r@ == quoted_arg(value@),
{
    proof {
        reveal_strlit("\"");
    }
    let n = value.unicode_len();
    let mut special = n == 0;
    let mut i: usize = 0;
    while i < n
        invariant
            n == value@.len(),
            i <= n,
            special == (n == 0 || exists|k: int|
                0 <= k < i && (value@[k] == ' ' || value@[k] == '\t' || value@[k] == '"')),
        decreases n - i,
    {
        let c = value.get_char(i);
        if c == ' ' || c == '\t' || c == '"' {
            special = true;
        }
        i = i + 1;
    }
    if !special {
        assert(!needs_quotes(value@)) by {
            if value@.contains(' ') || value@.contains('\t') || value@.contains('"') {
                let k = choose|k: int|
                    0 <= k < n && (value@[k] == ' ' || value@[k] == '\t' || value@[k] == '"');
                assert(0 <= k < i);
            }
        }
        return value.to_owned();
    }
    assert(needs_quotes(value@)) by {
        if n > 0 {
            let k = choose|k: int|
                0 <= k < n && (value@[k] == ' ' || value@[k] == '\t' || value@[k] == '"');
            if value@[k] == ' ' {
                assert(value@.contains(' '));
            } else if value@[k] == '\t' {
                assert(value@.contains('\t'));
            } else {
                assert(value@.contains('"'));
            }
        }
    }
    let mut r = "\"".to_owned();
    let mut j: usize = 0;
    assert(value@.take(0) =~= Seq::<char>::empty());
    while j < n
        invariant
            n == value@.len(),
            j <= n,
            r@ == seq!['"'] + double_quotes(value@.take(j as int)),
        decreases n - j,
    {
        assert(value@.take(j + 1).drop_last() =~= value@.take(j as int));
        assert(value@.take(j + 1).last() == value@[j as int]);
        assert(double_quotes(value@.take(j + 1)) == double_quotes(value@.take(j as int)) + if value@[j as int] == '"' {
            seq!['"', '"']
        } else {
            seq![value@[j as int]]
        });
        if value.get_char(j) == '"' {
            let one = value.substring_char(j, j + 1);
            assert(one@ =~= seq!['"']);
            r.append(one);
            r.append(one);
        } else {
            let one = value.substring_char(j, j + 1);
            assert(one@ =~= seq![value@[j as int]]);
            r.append(one);
        }
        assert(r@ =~= seq!['"'] + double_quotes(value@.take(j + 1)));
        j = j + 1;
    }
    assert(value@.take(n as int) =~= value@);
    r.append("\"");
    r
}

/// `s` with each pair of double quotes, read from the left, replaced by one
/// double quote.
pub open spec fn collapse_quotes(s: Seq<char>) -> Seq<char>
    decreases s.len(),
{
    if s.len() == 0 {
        s
    } else if s.len() >= 2 && s[0] == '"' && s[1] == '"' {
        seq!['"'] + collapse_quotes(s.skip(2))
    } else {
        seq![s[0]] + collapse_quotes(s.drop_first())
    }
}

/// The argument that a quoted command-line argument stands for: without its
/// enclosing double quotes, doubled double quotes read as one.
pub open spec fn unquoted_arg(q: Seq<char>) -> Seq<char> {
    if q.len() >= 2 && q[0] == '"' && q.last() == '"' {
        collapse_quotes(q.subrange(1, q.len() - 1))
    } else {
        q
    }
}

proof fn lemma_double_quotes_append(a: Seq<char>, b: Seq<char>)
    ensures
        double_quotes(a + b) == double_quotes(a) + double_quotes(b),
    decreases b.len(),
{
    if b.len() == 0 {
        assert(a + b =~= a);
        assert(double_quotes(a) + double_quotes(b) =~= double_quotes(a));
    } else {
        lemma_double_quotes_append(a, b.drop_last());
        assert((a + b).drop_last() =~= a + b.drop_last());
        assert((a + b).last() == b.last());
        let tail = if b.last() == '"' {
            seq!['"', '"']
        } else {
            seq![b.last()]
        };
        assert(double_quotes(a) + double_quotes(b.drop_last()) + tail =~= double_quotes(a) + (
        double_quotes(b.drop_last()) + tail));
    }
}

proof fn lemma_collapse_double_quotes(v: Seq<char>)
    ensures
        collapse_quotes(double_quotes(v)) == v,
    decreases v.len(),
{
    if v.len() > 0 {
        let rest = v.drop_first();
        assert(v =~= seq![v[0]] + rest);
        lemma_double_quotes_append(seq![v[0]], rest);
        assert(seq![v[0]].drop_last() =~= Seq::<char>::empty());
        assert(seq![v[0]].last() == v[0]);
        let head = if v[0] == '"' {
            seq!['"', '"']
        } else {
            seq![v[0]]
        };
        assert(double_quotes(Seq::<char>::empty()) == Seq::<char>::empty());
        assert(double_quotes(seq![v[0]]) =~= head);
        let d = double_quotes(v);
        assert(d =~= head + double_quotes(rest));
        lemma_collapse_double_quotes(rest);
        if v[0] == '"' {
            assert(d.skip(2) =~= double_quotes(rest));
        } else {
            assert(d.drop_first() =~= double_quotes(rest));
        }
        assert(collapse_quotes(d) =~= v);
    } else {
        assert(double_quotes(v) == v);
    }
}

/// Unquoting a quoted argument gives the argument back: an argument that
/// needs quotes comes out in double quotes, and dropping them and reading
/// doubled quotes as one restores it; any other argument is left as it is.
pub proof fn lemma_quote_round_trip(v: Seq<char>)
    ensures
        needs_quotes(v) ==> {
            let q = quoted_arg(v);
            &&& q.len() >= 2
            &&& q[0] == '"'
            &&& q.last() == '"'
            &&& collapse_quotes(q.subrange(1, q.len() - 1)) == v
        },
        !needs_quotes(v) ==> quoted_arg(v) == v,
        unquoted_arg(quoted_arg(v)) == v,
{
    if !needs_quotes(v) && v.len() >= 2 {
        assert(v[0] != '"');
    }
    if needs_quotes(v) {
        let q = quoted_arg(v);
        assert(q.subrange(1, q.len() - 1) =~= double_quotes(v));
        lemma_collapse_double_quotes(v);
    }
}

/// The arguments with which the installer relaunches itself elevated.
pub open spec fn elevation_args(
    debug: bool,
    channel: UpdateChannel,
    install_dir: Option<Seq<char>>,
) -> Seq<Seq<char>> {
    (if debug {
        seq!["--debug"@]
    } else {
        seq![]
    }) + seq!["--channel"@, channel_name(channel)] + (match install_dir {
        Some(d) => seq!["--install-dir"@, d],
        None => seq![],
    }) + seq!["--elevated"@]
}

/// The command line, quoted and joined, of an elevated relaunch.
pub open spec fn elevation_command_line(
    debug: bool,
    channel: UpdateChannel,
    install_dir: Option<Seq<char>>,
) -> Seq<char> {
    join_with(
        elevation_args(debug, channel, install_dir).map_values(|a: Seq<char>| quoted_arg(a)),
        " "@,
    )
}

/// The parameters with which the installer asks Windows to run it again with
/// administrator rights: the same options, and `--elevated`, each quoted as
/// an argument and separated by spaces.
pub fn relaunch_as_admin(debug: bool, channel: UpdateChannel, install_dir: Option<&str>) -> (r:
    String)
    ensures
        r@ == elevation_command_line(
            debug,
            channel,
            match install_dir {
                Some(d) => Some(d@),
                None => None,
            },
        ),
{
    let ghost dir = match install_dir {
        Some(d) => Some(d@),
        None => None::<Seq<char>>,
    };
    let mut params: Vec<String> = Vec::new();
    if debug {
        push_line(&mut params, quote_arg("--debug"));
    }
    push_line(&mut params, quote_arg("--channel"));
    push_line(&mut params, quote_arg(channel.as_str()));
    match install_dir {
        Some(d) => {
            push_line(&mut params, quote_arg("--install-dir"));
            push_line(&mut params, quote_arg(d));
        },
        None => {},
    }
    push_line(&mut params, quote_arg("--elevated"));
    assert(string_views(params@) =~= elevation_args(debug, channel, dir).map_values(
        |a: Seq<char>| quoted_arg(a),
    ));
    join_strings(&params, " ")
}

// ---------------------------------------------------------------------------
// How Windows programs read their command line.

/// `n` backslashes.
pub open spec fn backslashes(n: nat) -> Seq<char> {
    Seq::new(n, |i: int| '\\')
}

/// The arguments that a program built with the Microsoft C runtime rules
/// (as Rust's standard library reads them) finds in the rest `s` of its
/// command line. `args` are the arguments read so far, `cur` the current
/// one, `started` whether there is a current one, `in_quotes` whether a
/// double quote has opened and not closed, `bs` how many backslashes wait.
/// A run of backslashes counts literally unless a double quote follows it:
/// then every two backslashes make one, and an odd one escapes the quote.
/// An unescaped quote opens or closes quoting, and inside quotes a doubled
/// quote stands for one. Spaces and tabs outside quotes separate arguments.
pub open spec fn parse_args_from(
    s: Seq<char>,
    args: Seq<Seq<char>>,
    cur: Seq<char>,
    started: bool,
    in_quotes: bool,
    bs: nat,
) -> Seq<Seq<char>>
    decreases s.len(),
{
    if s.len() == 0 {
        if started {
            args.push(cur + backslashes(bs))
        } else {
            args
        }
    } else {
        let c = s[0];
        let rest = s.drop_first();
        if c == '\\' {
            parse_args_from(rest, args, cur, true, in_quotes, bs + 1)
        } else if c == '"' {
            if bs % 2 == 0 {
                let cur2 = cur + backslashes(bs / 2);
                if in_quotes && rest.len() > 0 && rest[0] == '"' {
                    parse_args_from(rest.drop_first(), args, cur2.push('"'), true, in_quotes, 0)
                } else {
                    parse_args_from(rest, args, cur2, true, !in_quotes, 0)
                }
            } else {
                parse_args_from(rest, args, (cur + backslashes(bs / 2)).push('"'), true, in_quotes, 0)
            }
        } else if (c == ' ' || c == '\t') && !in_quotes {
            if started {
                parse_args_from(rest, args.push(cur + backslashes(bs)), Seq::empty(), false, false, 0)
            } else {
                parse_args_from(rest, args, cur, false, false, 0)
            }
        } else {
            parse_args_from(rest, args, (cur + backslashes(bs)).push(c), true, in_quotes, 0)
        }
    }
}

/// The arguments that a Windows program finds in the parameters `s` of its
/// command line.
pub open spec fn windows_args(s: Seq<char>) -> Seq<Seq<char>> {
    parse_args_from(s, Seq::empty(), Seq::empty(), false, false, 0)
}

/// An argument that quoting passes through Windows parsing unchanged: no
/// double quote in it, and, when it is quoted, no backslash at its end that
/// would escape the closing quote.
pub open spec fn passes_quoting(a: Seq<char>) -> bool {
    &&& !a.contains('"')
    &&& needs_quotes(a) ==> (a.len() == 0 || a.last() != '\\')
}

proof fn lemma_absorb(
    a: Seq<char>,
    u: Seq<char>,
    args: Seq<Seq<char>>,
    cur: Seq<char>,
    started: bool,
    in_quotes: bool,
    bs: nat,
) -> (r: (Seq<char>, nat))
    requires
        !a.contains('"'),
        !in_quotes ==> !a.contains(' ') && !a.contains('\t'),
    ensures
        parse_args_from(a + u, args, cur, started, in_quotes, bs) == parse_args_from(
            u,
            args,
            r.0,
            started || a.len() > 0,
            in_quotes,
            r.1,
        ),
        r.0 + backslashes(r.1) == cur + backslashes(bs) + a,
        a.len() == 0 ==> r.0 == cur && r.1 == bs,
        a.len() > 0 && a.last() != '\\' ==> r.1 == 0,
    decreases a.len(),
{
    if a.len() == 0 {
        assert(a + u =~= u);
        assert(cur + backslashes(bs) + a =~= cur + backslashes(bs));
        (cur, bs)
    } else {
        let c = a[0];
        let a2 = a.drop_first();
        assert((a + u)[0] == c);
        assert((a + u).drop_first() =~= a2 + u);
        assert(c != '"');
        assert(!a2.contains('"')) by {
            if a2.contains('"') {
                let k = choose|k: int| 0 <= k < a2.len() && a2[k] == '"';
                assert(a[k + 1] == '"');
            }
        }
        assert(!in_quotes ==> !a2.contains(' ') && !a2.contains('\t')) by {
            if !in_quotes && (a2.contains(' ') || a2.contains('\t')) {
                let k = choose|k: int| 0 <= k < a2.len() && (a2[k] == ' ' || a2[k] == '\t');
                assert(a[k + 1] == a2[k]);
            }
        }
        if !in_quotes {
            assert(c != ' ' && c != '\t') by {
                assert(a[0] == c);
            }
        }
        if c == '\\' {
            let r = lemma_absorb(a2, u, args, cur, true, in_quotes, bs + 1);
            assert(backslashes(bs + 1) =~= backslashes(bs) + seq!['\\']);
            assert(a =~= seq!['\\'] + a2);
            assert(cur + backslashes(bs + 1) + a2 =~= cur + backslashes(bs) + a);
            if a2.len() > 0 {
                assert(a.last() == a2.last());
            }
            r
        } else {
            let cur2 = (cur + backslashes(bs)).push(c);
            let r = lemma_absorb(a2, u, args, cur2, true, in_quotes, 0);
            assert(backslashes(0) =~= Seq::<char>::empty());
            assert(a =~= seq![c] + a2);
            assert(cur2 + backslashes(0) + a2 =~= cur + backslashes(bs) + a);
            if a2.len() > 0 {
                assert(a.last() == a2.last());
            }
            r
        }
    }
}

/// Reading one quoted argument, then what follows it.
proof fn lemma_parse_token(a: Seq<char>, u: Seq<char>, args: Seq<Seq<char>>)
    requires
        passes_quoting(a),
        u.len() == 0 || u[0] == ' ',
    ensures
        parse_args_from(quoted_arg(a) + u, args, Seq::empty(), false, false, 0) == parse_args_from(
            u,
            args,
            a,
            true,
            false,
            0,
        ),
{
    assert(backslashes(0) =~= Seq::<char>::empty());
    if needs_quotes(a) {
        lemma_double_quotes_plain(a);
        let s = quoted_arg(a) + u;
        assert(s =~= seq!['"'] + (a + (seq!['"'] + u)));
        assert(s[0] == '"');
        assert(s.drop_first() =~= a + (seq!['"'] + u));
        assert(Seq::<char>::empty() + backslashes(0) =~= Seq::<char>::empty());
        let r = lemma_absorb(a, seq!['"'] + u, args, Seq::empty(), true, true, 0);
        assert(r.0 + backslashes(r.1) == a) by {
            assert(Seq::<char>::empty() + backslashes(0) + a =~= a);
        }
        assert(r.1 == 0);
        assert(r.0 =~= a) by {
            assert(r.0 + backslashes(0) =~= r.0);
        }
        let t = seq!['"'] + u;
        assert(t[0] == '"');
        assert(t.drop_first() =~= u);
        assert(r.0 + backslashes(0) =~= r.0);
    } else {
        assert(a.len() > 0);
        let r = lemma_absorb(a, u, args, Seq::empty(), false, false, 0);
        assert(quoted_arg(a) == a);
        assert(Seq::<char>::empty() + backslashes(0) + a =~= a);
        assert(a.last() != '\\' ==> r.1 == 0);
        // The token is read into `r.0` with `r.1` backslashes waiting; both
        // the end and a space write them out.
        lemma_pending_backslashes(u, args, r.0, r.1, a);
    }
}

/// Backslashes that wait at a separator or at the end are written out.
proof fn lemma_pending_backslashes(
    u: Seq<char>,
    args: Seq<Seq<char>>,
    c: Seq<char>,
    b: nat,
    a: Seq<char>,
)
    requires
        u.len() == 0 || u[0] == ' ',
        c + backslashes(b) == a,
    ensures
        parse_args_from(u, args, c, true, false, b) == parse_args_from(u, args, a, true, false, 0),
{
    assert(a + backslashes(0) =~= a);
    if u.len() > 0 {
        assert(parse_args_from(u, args, c, true, false, b) == parse_args_from(
            u.drop_first(),
            args.push(a),
            Seq::empty(),
            false,
            false,
            0,
        ));
    }
}

proof fn lemma_double_quotes_plain(a: Seq<char>)
    requires
        !a.contains('"'),
    ensures
        double_quotes(a) == a,
    decreases a.len(),
{
    if a.len() > 0 {
        let d = a.drop_last();
        assert(!d.contains('"')) by {
            if d.contains('"') {
                let k = choose|k: int| 0 <= k < d.len() && d[k] == '"';
                assert(a[k] == '"');
            }
        }
        lemma_double_quotes_plain(d);
        assert(a.last() != '"') by {
            assert(a[a.len() - 1] == a.last());
        }
        assert(d.push(a.last()) =~= a);
    }
}

/// `parts` joined, read from the front.
proof fn lemma_join_front(x: Seq<char>, rest: Seq<Seq<char>>, sep: Seq<char>)
    requires
        rest.len() > 0,
    ensures
        join_with(seq![x] + rest, sep) == x + sep + join_with(rest, sep),
    decreases rest.len(),
{
    let l = seq![x] + rest;
    if rest.len() == 1 {
        assert(l.drop_last() =~= seq![x]);
        assert(l.last() == rest[0]);
        assert(join_with(seq![x], sep) == x);
        assert(join_with(rest, sep) == rest[0]);
        assert(join_with(l, sep) == join_with(l.drop_last(), sep) + sep + l.last());
    } else {
        lemma_join_front(x, rest.drop_last(), sep);
        assert(l.drop_last() =~= seq![x] + rest.drop_last());
        assert(l.last() == rest.last());
        assert(join_with(l, sep) == join_with(l.drop_last(), sep) + sep + l.last());
        assert(join_with(rest, sep) == join_with(rest.drop_last(), sep) + sep + rest.last());
        assert(x + sep + join_with(rest.drop_last(), sep) + sep + rest.last() =~= x + sep + (
        join_with(rest.drop_last(), sep) + sep + rest.last()));
    }
}

/// Arguments that pass quoting, quoted and joined by spaces, are read back
/// one for one.
pub proof fn lemma_quoted_args_read_back(list: Seq<Seq<char>>, args: Seq<Seq<char>>)
    requires
        forall|i: int| 0 <= i < list.len() ==> passes_quoting(#[trigger] list[i]),
    ensures
        parse_args_from(
            join_with(list.map_values(|a: Seq<char>| quoted_arg(a)), " "@),
            args,
            Seq::empty(),
            false,
            false,
            0,
        ) == args + list,
    decreases list.len(),
{
    reveal_strlit(" ");
    let q = list.map_values(|a: Seq<char>| quoted_arg(a));
    if list.len() == 0 {
        assert(args + list =~= args);
    } else {
        let x = list[0];
        let rest = list.drop_first();
        assert(passes_quoting(x));
        assert forall|i: int| 0 <= i < rest.len() implies passes_quoting(#[trigger] rest[i]) by {
            assert(rest[i] == list[i + 1]);
        }
        let qr = rest.map_values(|a: Seq<char>| quoted_arg(a));
        assert(q =~= seq![quoted_arg(x)] + qr);
        if rest.len() == 0 {
            assert(q =~= seq![quoted_arg(x)]);
            assert(quoted_arg(x) + Seq::<char>::empty() =~= quoted_arg(x));
            lemma_parse_token(x, Seq::empty(), args);
            assert(x + backslashes(0) =~= x);
            assert(args + list =~= args.push(x));
        } else {
            lemma_join_front(quoted_arg(x), qr, " "@);
            let u = " "@ + join_with(qr, " "@);
            assert(" "@ =~= seq![' ']);
            assert(u[0] == ' ');
            assert(quoted_arg(x) + " "@ + join_with(qr, " "@) =~= quoted_arg(x) + u);
            lemma_parse_token(x, u, args);
            assert(u.drop_first() =~= join_with(qr, " "@));
            assert(x + backslashes(0) =~= x);
            lemma_quoted_args_read_back(rest, args.push(x));
            assert(args.push(x) + rest =~= args + list);
        }
    }
}

proof fn lemma_word_passes(w: Seq<char>)
    requires
        w.len() > 0,
        forall|i: int| 0 <= i < w.len() ==> #[trigger] w[i] != '"' && w[i] != ' ' && w[i] != '\t',
    ensures
        passes_quoting(w),
        !needs_quotes(w),
{
}

/// The relaunched installer reads back exactly the arguments it was given:
/// its options and `--elevated`, so it does not ask for rights again. This
/// holds of an install directory with no double quote in it that does not
/// end in a backslash (Windows paths hold no double quote).
pub proof fn lemma_relaunch_read_back(
    debug: bool,
    channel: UpdateChannel,
    install_dir: Option<Seq<char>>,
)
    requires
        install_dir matches Some(d) ==> !d.contains('"') && (d.len() == 0 || d.last() != '\\'),
    ensures
        windows_args(elevation_command_line(debug, channel, install_dir)) == elevation_args(
            debug,
            channel,
            install_dir,
        ),
{
    reveal_strlit("--debug");
    reveal_strlit("--channel");
    reveal_strlit("stable");
    reveal_strlit("nightly");
    reveal_strlit("--install-dir");
    reveal_strlit("--elevated");
    lemma_word_passes("--debug"@);
    lemma_word_passes("--channel"@);
    lemma_word_passes("stable"@);
    lemma_word_passes("nightly"@);
    lemma_word_passes("--install-dir"@);
    lemma_word_passes("--elevated"@);
    let list = elevation_args(debug, channel, install_dir);
    assert forall|i: int| 0 <= i < list.len() implies passes_quoting(#[trigger] list[i]) by {
        match install_dir {
            Some(d) => {
                assert(passes_quoting(d));
            },
            None => {},
        }
    }
    lemma_quoted_args_read_back(list, Seq::empty());
    assert(Seq::<Seq<char>>::empty() + list =~= list);
}

/// The question whether to install into `install_dir` from `channel`.
pub open spec fn install_prompt(install_dir: Seq<char>, channel: UpdateChannel) -> Seq<char> {
    "Install cpkg to the recommended location?\n\n"@ + install_dir + "\n\nUpdate channel: "@
        + channel_name(channel) + "\n\nTo update later, run this installer again."@
}

/// The question the installer asks before it installs.
pub fn install_question(install_dir: &str, channel: UpdateChannel) -> (r: String)
    ensures
        r@ == install_prompt(install_dir@, channel),
{
    let mut r = "Install cpkg to the recommended location?\n\n".to_owned();
    r.append(install_dir);
    r.append("\n\nUpdate channel: ");
    r.append(channel.as_str());
    r.append("\n\nTo update later, run this installer again.");
    r
}

/// The message after a successful installation to `target`.
pub open spec fn install_success(target: Seq<char>) -> Seq<char> {
    "cpkg installed successfully.\n\nLocation:\n"@ + target
        + "\n\nTo update later, run this installer again."@
}

/// The message the installer shows once it has installed to `target`.
pub fn install_success_message(target: &str) -> (r: String)
    ensures
        r@ == install_success(target@),
{
    let mut r = "cpkg installed successfully.\n\nLocation:\n".to_owned();
    r.append(target);
    r.append("\n\nTo update later, run this installer again.");
    r
}

/// The message shown when installing failed with `detail`.
pub open spec fn failure_message(debug: bool, detail: Seq<char>) -> Seq<char> {
    if debug {
        "Installation failed.\n\n"@ + detail
    } else {
        "Installation failed. Run with --debug for detailed error output."@
    }
}

/// The message the installer shows on failure: the detail only in debug
/// mode.
pub fn show_error(debug: bool, detail: &str) -> (r: String)
    ensures
        r@ == failure_message(debug, detail@),
{
    if debug {
        let mut r = "Installation failed.\n\n".to_owned();
        r.append(detail);
        r
    } else {
        "Installation failed. Run with --debug for detailed error output.".to_owned()
    }
}

// ---------------------------------------------------------------------------
// Finding the download URL of the tool.

/// One asset of a GitHub release, as far as the installer reads it.
#[derive(Debug)]
pub struct Asset {
    pub name: Option<String>,
    pub browser_download_url: Option<String>,
}

/// One GitHub release, as far as the installer reads it; a missing or
/// mistyped `prerelease` reads as `false`, a missing `tag_name` as empty.
#[derive(Debug)]
pub struct Release {
    pub prerelease: bool,
    pub tag_name: String,
    pub assets: Option<Vec<Asset>>,
}

/// The member `key` of `j`, when it is a string.
pub open spec fn str_member(j: Json, key: Seq<char>) -> Option<Seq<char>> {
    match member(j, key) {
        Some(Json::Str(s)) => Some(s@),
        _ => None,
    }
}

/// Whether `a` is what the installer reads from the JSON asset `j`: its
/// name and download URL when they are strings.
pub open spec fn asset_read(j: Json, a: Asset) -> bool {
    &&& opt_chars(a.name) == str_member(j, "name"@)
    &&& opt_chars(a.browser_download_url) == str_member(j, "browser_download_url"@)
}

/// Whether `r` is what the installer reads from the JSON release `j`:
/// `prerelease` is true only when it is the JSON `true`, the tag is empty
/// unless it is a string, and the assets are there only when they are an
/// array, each read as an asset.
pub open spec fn release_read(j: Json, r: Release) -> bool {
    &&& r.prerelease == (member(j, "prerelease"@) == Some(Json::Bool(true)))
    &&& r.tag_name@ == match str_member(j, "tag_name"@) {
        Some(t) => t,
        None => Seq::empty(),
    }
    &&& match member(j, "assets"@) {
        Some(Json::Array(items)) => (r.assets matches Some(v) && v@.len() == items@.len() && forall|
            i: int,
        |
            0 <= i < items@.len() ==> asset_read(#[trigger] items@[i], v@[i])),
        _ => r.assets is None,
    }
}

/// Whether `o` is what the installer reads from a page of releases `j`: one
/// release per entry when `j` is an array, `None` otherwise.
pub open spec fn releases_read(j: Json, o: Option<Vec<Release>>) -> bool {
    match j {
        Json::Array(items) => (o matches Some(v) && v@.len() == items@.len() && forall|i: int|
            0 <= i < items@.len() ==> release_read(#[trigger] items@[i], v@[i])),
        _ => o is None,
    }
}

/// The member `key` of `j`, when it is a string.
fn string_member(j: &Json, key: &str) -> (r: Option<String>)
    ensures
        opt_chars(r) == str_member(*j, key@),
{
    match get_member(j, key) {
        Some(Json::Str(s)) => Some(s.clone()),
        _ => None,
    }
}

/// The asset that the JSON value `j` describes.
fn asset_of_json(j: &Json) -> (a: Asset)
    ensures
        asset_read(*j, a),
{
    Asset {
        name: string_member(j, "name"),
        browser_download_url: string_member(j, "browser_download_url"),
    }
}

/// The release that the JSON value `j` describes.
fn release_of_json(j: &Json) -> (r: Release)
    ensures
        release_read(*j, r),
{
    let prerelease = match get_member(j, "prerelease") {
        Some(Json::Bool(b)) => *b,
        _ => false,
    };
    let tag_name = match string_member(j, "tag_name") {
        Some(t) => t,
        None => String::new(),
    };
    let assets = match get_member(j, "assets") {
        Some(Json::Array(items)) => {
            let mut v: Vec<Asset> = Vec::new();
            let mut i: usize = 0;
            while i < items.len()
                invariant
                    i <= items@.len(),
                    v@.len() == i,
                    forall|k: int| 0 <= k < i ==> asset_read(#[trigger] items@[k], v@[k]),
                decreases items@.len() - i,
            {
                v.push(asset_of_json(&items[i]));
                i = i + 1;
            }
            Some(v)
        },
        _ => None,
    };
    Release { prerelease, tag_name, assets }
}

/// The releases that a page of the GitHub API describes, when it is a JSON
/// array.
pub fn releases_of_json(j: &Json) -> (r: Option<Vec<Release>>)
    ensures
        releases_read(*j, r),
{
    match j {
        Json::Array(items) => {
            let mut v: Vec<Release> = Vec::new();
            let mut i: usize = 0;
            while i < items.len()
                invariant
                    i <= items@.len(),
                    v@.len() == i,
                    forall|k: int| 0 <= k < i ==> release_read(#[trigger] items@[k], v@[k]),
                decreases items@.len() - i,
            {
                v.push(release_of_json(&items[i]));
                i = i + 1;
            }
            Some(v)
        },
        _ => None,
    }
}

/// The releases on a page that the GitHub API answered with the text `raw`:
/// an error when the text is not JSON; `None` when it is JSON but not an
/// array.
pub fn releases_from_response(raw: &str) -> (r: Result<Option<Vec<Release>>, String>)
    ensures
        r is Err <==> parsed_json(raw@) is None,
        r matches Err(e) ==> "Failed to parse releases response: "@.is_prefix_of(e@),
        r matches Ok(o) ==> (parsed_json(raw@) matches Some(j) && releases_read(j, o)),
{
    match parse_json(raw) {
        Ok(j) => Ok(releases_of_json(&j)),
        Err(e) => {
            let mut msg = "Failed to parse releases response: ".to_owned();
            let ghost prefix = msg@;
            msg.append(e.as_str());
            assert(msg@.subrange(0, prefix.len() as int) =~= prefix);
            Err(msg)
        },
    }
}

/// The direct URL of the latest stable build of the tool.
pub open spec fn direct_url() -> Seq<char> {
    "https://github.com/callenflynn/cpkg/releases/latest/download/cpkg.exe"@
}

/// The GitHub API URL of the `page`-th page of the tool's releases.
pub open spec fn releases_page_url(page: nat) -> Seq<char> {
    "https://api.github.com/repos/callenflynn/cpkg/releases?per_page=30&page="@ + decimal(page)
}

/// The view of an optional string.
pub open spec fn opt_chars(o: Option<String>) -> Option<Seq<char>> {
    match o {
        Some(s) => Some(s@),
        None => None,
    }
}

/// The download URL of an asset that is the tool's executable (its name is
/// `cpkg.exe` in any ASCII case) and has one.
pub open spec fn asset_url(a: Asset) -> Option<Seq<char>> {
    match (opt_chars(a.name), opt_chars(a.browser_download_url)) {
        (Some(n), Some(u)) => if ascii_lower(n) == ascii_lower("cpkg.exe"@) {
            Some(u)
        } else {
            None
        },
        _ => None,
    }
}

/// The URL of the first asset of `assets` that is the tool with a URL.
pub open spec fn first_asset_url(assets: Seq<Asset>) -> Option<Seq<char>>
    decreases assets.len(),
{
    if assets.len() == 0 {
        None
    } else if asset_url(assets[0]) is Some {
        asset_url(assets[0])
    } else {
        first_asset_url(assets.drop_first())
    }
}

/// Whether a release belongs to `channel`: stable takes releases that are
/// not pre-releases; nightly takes pre-releases whose tag holds `-nightly.`
/// in any ASCII case.
pub open spec fn on_channel(r: Release, channel: UpdateChannel) -> bool {
    match channel {
        UpdateChannel::Stable => !r.prerelease,
        UpdateChannel::Nightly => r.prerelease && occurs_in(
            ascii_lower(r.tag_name@),
            ascii_lower("-nightly."@),
        ),
    }
}

/// The tool's URL in a release, when it is on `channel` and has one.
pub open spec fn release_url(r: Release, channel: UpdateChannel) -> Option<Seq<char>> {
    if on_channel(r, channel) {
        match r.assets {
            Some(a) => first_asset_url(a@),
            None => None,
        }
    } else {
        None
    }
}

/// The tool's URL in the first release of `rs` that is on `channel` and has
/// one.
pub open spec fn pick_url(rs: Seq<Release>, channel: UpdateChannel) -> Option<Seq<char>>
    decreases rs.len(),
{
    if rs.len() == 0 {
        None
    } else if release_url(rs[0], channel) is Some {
        release_url(rs[0], channel)
    } else {
        pick_url(rs.drop_first(), channel)
    }
}

/// What the installer learned from its last request.
pub enum ResolveEvent {
    /// Nothing yet.
    Start,
    /// Whether the direct URL answered without an error status.
    Probed(bool),
    /// Page `page` of releases; `None` when the answer was not a JSON array.
    Page { page: usize, releases: Option<Vec<Release>> },
}

/// What the installer does next.
#[derive(Debug)]
pub enum ResolveStep {
    /// Probe this URL with a HEAD request.
    Probe(String),
    /// Fetch this page of releases from this URL.
    Fetch { page: usize, url: String },
    /// Download the tool from this URL.
    Found(String),
    /// Give up with this error.
    Failed(String),
}

/// The error when no release of `channel` has the tool.
pub open spec fn not_found_message(channel: UpdateChannel) -> Seq<char> {
    "Could not find cpkg.exe in GitHub releases for channel '"@ + channel_name(channel) + "'."@
}

/// The step that asks for page `page` of releases.
pub open spec fn fetch_step(s: ResolveStep, page: nat) -> bool {
    s matches ResolveStep::Fetch { page: p, url } && p == page && url@ == releases_page_url(page)
}

/// Whether `s` is the next step after `e` when installing from `channel`.
pub open spec fn resolve_step(channel: UpdateChannel, e: ResolveEvent, s: ResolveStep) -> bool {
    match e {
        ResolveEvent::Start => match channel {
            UpdateChannel::Stable => s matches ResolveStep::Probe(u) && u@ == direct_url(),
            UpdateChannel::Nightly => fetch_step(s, 1),
        },
        ResolveEvent::Probed(ok) => if ok && channel == UpdateChannel::Stable {
            s matches ResolveStep::Found(u) && u@ == direct_url()
        } else {
            fetch_step(s, 1)
        },
        ResolveEvent::Page { page, releases } => match releases {
            None => s matches ResolveStep::Failed(m) && m@
                == "Unexpected GitHub releases response format"@,
            Some(rs) => if rs@.len() == 0 {
                s matches ResolveStep::Failed(m) && m@ == not_found_message(channel)
            } else {
                match pick_url(rs@, channel) {
                    Some(u) => s matches ResolveStep::Found(f) && f@ == u,
                    None => fetch_step(s, (page + 1) as nat),
                }
            },
        },
    }
}

fn page_url(page: usize) -> (r: String)
    ensures
        r@ == releases_page_url(page as nat),
{
    let mut r = "https://api.github.com/repos/callenflynn/cpkg/releases?per_page=30&page=".to_owned();
    r.append(decimal_string(page as u64).as_str());
    r
}

/// The tool's URL in `a`, when it is the tool's executable and has one.
fn asset_download_url(a: &Asset) -> (r: Option<String>)
    ensures
        opt_chars(r) == asset_url(*a),
{
    match (&a.name, &a.browser_download_url) {
        (Some(n), Some(u)) => {
            if eq_ignore_ascii_case(n.as_str(), "cpkg.exe") {
                Some(u.clone())
            } else {
                None
            }
        },
        _ => None,
    }
}

/// The tool's URL in `r`, when `r` is on `channel` and has one.
fn release_download_url(r: &Release, channel: UpdateChannel) -> (u: Option<String>)
    ensures
        opt_chars(u) == release_url(*r, channel),
{
    let on = match channel {
        UpdateChannel::Stable => !r.prerelease,
        UpdateChannel::Nightly => r.prerelease && contains_ignore_ascii_case(
            r.tag_name.as_str(),
            "-nightly.",
        ),
    };
    if !on {
        return None;
    }
    let assets = match &r.assets {
        Some(a) => a,
        None => return None,
    };
    let ghost s = assets@;
    let mut i: usize = 0;
    assert(s.skip(0) =~= s);
    while i < assets.len()
        invariant
            s == assets@,
            i <= s.len(),
            release_url(*r, channel) == first_asset_url(s),
            first_asset_url(s) == first_asset_url(s.skip(i as int)),
        decreases s.len() - i,
    {
        assert(s.skip(i as int)[0] == s[i as int]);
        let u = asset_download_url(&assets[i]);
        if u.is_some() {
            return u;
        }
        assert(s.skip(i as int).drop_first() =~= s.skip(i + 1));
        i = i + 1;
    }
    None
}

/// The tool's URL in the first release of `releases` on `channel` that has
/// one.
pub fn pick_release_url(releases: &Vec<Release>, channel: UpdateChannel) -> (u: Option<String>)
    ensures
        opt_chars(u) == pick_url(releases@, channel),
{
    let ghost s = releases@;
    let mut i: usize = 0;
    assert(s.skip(0) =~= s);
    while i < releases.len()
        invariant
            s == releases@,
            i <= s.len(),
            pick_url(s, channel) == pick_url(s.skip(i as int), channel),
        decreases s.len() - i,
    {
        assert(s.skip(i as int)[0] == s[i as int]);
        let u = release_download_url(&releases[i], channel);
        if u.is_some() {
            return u;
        }
        assert(s.skip(i as int).drop_first() =~= s.skip(i + 1));
        i = i + 1;
    }
    None
}

/// The next step in finding where to download the tool from, after `event`.
/// The stable channel first probes the direct URL of the latest release;
/// otherwise, and when the probe fails, pages of releases are fetched in
/// turn until one release on the channel has the tool, or a page is empty.
pub fn resolve_download_url(channel: UpdateChannel, event: ResolveEvent) -> (s: ResolveStep)
    requires
        event matches ResolveEvent::Page { page, releases } ==> (page < usize::MAX || !(
        releases matches Some(rs) && rs@.len() > 0 && pick_url(rs@, channel) is None)),
    ensures
        resolve_step(channel, event, s),
{
    match event {
        ResolveEvent::Start => match channel {
            UpdateChannel::Stable => ResolveStep::Probe(
                "https://github.com/callenflynn/cpkg/releases/latest/download/cpkg.exe".to_owned(),
            ),
            UpdateChannel::Nightly => ResolveStep::Fetch { page: 1, url: page_url(1) },
        },
        ResolveEvent::Probed(ok) => {
            if ok && channel == UpdateChannel::Stable {
                ResolveStep::Found(
                    "https://github.com/callenflynn/cpkg/releases/latest/download/cpkg.exe".to_owned(),
                )
            } else {
                ResolveStep::Fetch { page: 1, url: page_url(1) }
            }
        },
        ResolveEvent::Page { page, releases } => match releases {
            None => ResolveStep::Failed("Unexpected GitHub releases response format".to_owned()),
            Some(rs) => {
                if rs.len() == 0 {
                    let mut m = "Could not find cpkg.exe in GitHub releases for channel '".to_owned();
                    m.append(channel.as_str());
                    m.append("'.");
                    return ResolveStep::Failed(m);
                }
                match pick_release_url(&rs, channel) {
                    Some(u) => ResolveStep::Found(u),
                    None => ResolveStep::Fetch { page: page + 1, url: page_url(page + 1) },
                }
            },
        },
    }
}

/// The URL picked from a page of releases is the tool's asset of a release on
/// the channel: a stable install never takes a pre-release, and a nightly
/// one takes only a pre-release tagged as nightly.
pub proof fn lemma_picked_release_on_channel(rs: Seq<Release>, channel: UpdateChannel)
    ensures
        pick_url(rs, channel) matches Some(u) ==> exists|i: int|
            0 <= i < rs.len() && on_channel(#[trigger] rs[i], channel) && release_url(rs[i], channel)
                == Some(u),
    decreases rs.len(),
{
    if rs.len() > 0 {
        if release_url(rs[0], channel) is Some {
            assert(on_channel(rs[0], channel));
        } else {
            lemma_picked_release_on_channel(rs.drop_first(), channel);
            if pick_url(rs, channel) is Some {
                let i = choose|i: int|
                    0 <= i < rs.drop_first().len() && on_channel(
                        #[trigger] rs.drop_first()[i],
                        channel,
                    ) && release_url(rs.drop_first()[i], channel) == pick_url(rs, channel);
                assert(rs[i + 1] == rs.drop_first()[i]);
            }
        }
    }
}

/// Whether `a` is the tool's executable with a download URL: an asset named
/// `cpkg.exe`, in any ASCII case, that has a URL.
pub open spec fn is_tool_asset(a: Asset) -> bool {
    &&& a.name matches Some(n) && ascii_lower(n@) == ascii_lower("cpkg.exe"@)
    &&& a.browser_download_url is Some
}

/// Whether release `r` is on `channel` and offers the tool with a URL.
pub open spec fn offers_tool(r: Release, channel: UpdateChannel) -> bool {
    &&& on_channel(r, channel)
    &&& r.assets matches Some(a) && exists|j: int| 0 <= j < a@.len() && is_tool_asset(#[trigger] a@[j])
}

proof fn lemma_first_asset_in_order(assets: Seq<Asset>)
    ensures
        first_asset_url(assets) matches Some(u) ==> exists|j: int|
            0 <= j < assets.len() && is_tool_asset(#[trigger] assets[j]) && opt_chars(
                assets[j].browser_download_url,
            ) == Some(u) && forall|l: int| 0 <= l < j ==> !is_tool_asset(#[trigger] assets[l]),
        first_asset_url(assets) is None ==> forall|j: int|
            0 <= j < assets.len() ==> !is_tool_asset(#[trigger] assets[j]),
    decreases assets.len(),
{
    if assets.len() > 0 {
        let rest = assets.drop_first();
        lemma_first_asset_in_order(rest);
        if asset_url(assets[0]) is Some {
            assert(is_tool_asset(assets[0]));
        } else {
            assert(!is_tool_asset(assets[0]));
            if first_asset_url(assets) is Some {
                let j = choose|j: int|
                    0 <= j < rest.len() && is_tool_asset(#[trigger] rest[j]) && opt_chars(
                        rest[j].browser_download_url,
                    ) == first_asset_url(assets) && forall|l: int|
                        0 <= l < j ==> !is_tool_asset(#[trigger] rest[l]);
                assert(assets[j + 1] == rest[j]);
                assert forall|l: int| 0 <= l < j + 1 implies !is_tool_asset(#[trigger] assets[l]) by {
                    if l > 0 {
                        assert(assets[l] == rest[l - 1]);
                    }
                }
            } else {
                assert forall|j: int| 0 <= j < assets.len() implies !is_tool_asset(
                    #[trigger] assets[j],
                ) by {
                    if j > 0 {
                        assert(assets[j] == rest[j - 1]);
                    }
                }
            }
        }
    }
}

proof fn lemma_release_url_offers(r: Release, channel: UpdateChannel)
    ensures
        release_url(r, channel) is Some <==> offers_tool(r, channel),
        release_url(r, channel) matches Some(u) ==> (r.assets matches Some(a) && exists|j: int|
            0 <= j < a@.len() && is_tool_asset(#[trigger] a@[j]) && opt_chars(
                a@[j].browser_download_url,
            ) == Some(u) && forall|l: int| 0 <= l < j ==> !is_tool_asset(#[trigger] a@[l])),
{
    match r.assets {
        Some(a) => {
            lemma_first_asset_in_order(a@);
        },
        None => {},
    }
}

/// A stable release is one that is not a prerelease; a nightly release is a
/// prerelease whose tag holds `-nightly.`, in any ASCII case.
pub proof fn lemma_channel_membership(r: Release)
    ensures
        on_channel(r, UpdateChannel::Stable) <==> !r.prerelease,
        on_channel(r, UpdateChannel::Nightly) <==> r.prerelease && occurs_in(
            ascii_lower(r.tag_name@),
            "-nightly."@,
        ),
{
    reveal_strlit("-nightly.");
    assert(ascii_lower("-nightly."@) =~= "-nightly."@);
}

/// The URL picked from a page of releases is that of the first release, in
/// page order (the API's newest first), that is on the channel and offers
/// the tool: no release before it does; and of that release, the first
/// asset that is the tool. Nothing is picked only when no release on the
/// page is on the channel with the tool.
pub proof fn lemma_pick_first_in_page_order(rs: Seq<Release>, channel: UpdateChannel)
    ensures
        pick_url(rs, channel) matches Some(u) ==> exists|i: int|
            {
                &&& 0 <= i < rs.len()
                &&& offers_tool(#[trigger] rs[i], channel)
                &&& forall|k: int| 0 <= k < i ==> !offers_tool(#[trigger] rs[k], channel)
                &&& rs[i].assets matches Some(a) && exists|j: int|
                    0 <= j < a@.len() && is_tool_asset(#[trigger] a@[j]) && opt_chars(
                        a@[j].browser_download_url,
                    ) == Some(u) && forall|l: int| 0 <= l < j ==> !is_tool_asset(#[trigger] a@[l])
            },
        pick_url(rs, channel) is None <==> forall|i: int|
            0 <= i < rs.len() ==> !offers_tool(#[trigger] rs[i], channel),
    decreases rs.len(),
{
    if rs.len() > 0 {
        let rest = rs.drop_first();
        lemma_pick_first_in_page_order(rest, channel);
        lemma_release_url_offers(rs[0], channel);
        if release_url(rs[0], channel) is Some {
            assert(offers_tool(rs[0], channel));
        } else {
            assert(!offers_tool(rs[0], channel));
            if pick_url(rs, channel) is Some {
                let i = choose|i: int|
                    {
                        &&& 0 <= i < rest.len()
                        &&& offers_tool(#[trigger] rest[i], channel)
                        &&& forall|k: int| 0 <= k < i ==> !offers_tool(#[trigger] rest[k], channel)
                        &&& rest[i].assets matches Some(a) && exists|j: int|
                            0 <= j < a@.len() && is_tool_asset(#[trigger] a@[j]) && opt_chars(
                                a@[j].browser_download_url,
                            ) == pick_url(rs, channel) && forall|l: int|
                                0 <= l < j ==> !is_tool_asset(#[trigger] a@[l])
                    };
                assert(rs[i + 1] == rest[i]);
                assert forall|k: int| 0 <= k < i + 1 implies !offers_tool(#[trigger] rs[k], channel) by {
                    if k > 0 {
                        assert(rs[k] == rest[k - 1]);
                    }
                }
            }
            assert((forall|i: int| 0 <= i < rs.len() ==> !offers_tool(#[trigger] rs[i], channel))
                <==> (forall|i: int| 0 <= i < rest.len() ==> !offers_tool(#[trigger] rest[i], channel))) by {
                if forall|i: int| 0 <= i < rest.len() ==> !offers_tool(#[trigger] rest[i], channel) {
                    assert forall|i: int| 0 <= i < rs.len() implies !offers_tool(#[trigger] rs[i], channel) by {
                        if i > 0 {
                            assert(rs[i] == rest[i - 1]);
                        }
                    }
                }
                if forall|i: int| 0 <= i < rs.len() ==> !offers_tool(#[trigger] rs[i], channel) {
                    assert forall|i: int| 0 <= i < rest.len() implies !offers_tool(#[trigger] rest[i], channel) by {
                        assert(rs[i + 1] == rest[i]);
                    }
                }
            }
        }
    }
}

/// The URL taken from a release is that of one of its assets named
/// `cpkg.exe`, in any ASCII case.
pub proof fn lemma_asset_is_the_tool(assets: Seq<Asset>)
    ensures
        first_asset_url(assets) matches Some(u) ==> exists|j: int|
            0 <= j < assets.len() && asset_url(#[trigger] assets[j]) == Some(u),
    decreases assets.len(),
{
    if assets.len() > 0 && asset_url(assets[0]) is None {
        lemma_asset_is_the_tool(assets.drop_first());
        if first_asset_url(assets) is Some {
            let j = choose|j: int|
                0 <= j < assets.drop_first().len() && asset_url(#[trigger] assets.drop_first()[j])
                    == first_asset_url(assets);
            assert(assets[j + 1] == assets.drop_first()[j]);
        }
    }
}

// ---------------------------------------------------------------------------
// Download progress.

/// How much of the installer has been downloaded, out of how much (0 when
/// the size is not known).
#[derive(Debug)]
pub struct DownloadProgress {
    pub downloaded: u64,
    pub total: u64,
}

impl DownloadProgress {
    /// No byte downloaded yet, of `content_length` bytes when it is known.
    pub fn new(content_length: Option<u64>) -> (r: Self)
        ensures
            r.downloaded == 0,
            r.total == match content_length {
                Some(n) => n,
                None => 0,
            },
    {
        DownloadProgress {
            downloaded: 0,
            total: match content_length {
                Some(n) => n,
                None => 0,
            },
        }
    }

    /// Counts `read` more bytes, and gives the progress to show: downloaded
    /// and total bytes, when the total is known.
    pub fn advance(&mut self, read: usize) -> (report: Option<(u64, u64)>)
        requires
            old(self).downloaded + read <= u64::MAX,
        ensures
            final(self).downloaded == old(self).downloaded + read,
            final(self).total == old(self).total,
            report == if old(self).total > 0 {
                Some((final(self).downloaded, old(self).total))
            } else {
                None
            },
    {
        self.downloaded = self.downloaded + read as u64;
        if self.total > 0 {
            Some((self.downloaded, self.total))
        } else {
            None
        }
    }
}

/// Whether the download goes on: an error when the user cancelled it.
pub fn check_cancelled(cancelled: bool) -> (r: Result<(), String>)
    ensures
        r is Err <==> cancelled,
        r matches Err(e) ==> e@ == "Installation cancelled by user."@,
{
    if cancelled {
        Err("Installation cancelled by user.".to_owned())
    } else {
        Ok(())
    }
}

// ---------------------------------------------------------------------------
// The installer's dialog.

/// What the installer has just learned.
#[derive(Debug)]
pub enum InstallerEvent {
    /// It starts, to install into `install_dir` from `channel`.
    Start { install_dir: String, channel: UpdateChannel },
    /// The answer to whether to install.
    Proceed(bool),
    /// The answer to whether to add the tool to `PATH`.
    AddToPath(bool),
    /// The tool was downloaded to `target`.
    Installed { target: String, add_to_path: bool },
    /// The install directory was added to `PATH`.
    PathUpdated { target: String },
}

/// What the installer does next.
#[derive(Debug)]
pub enum InstallerAction {
    /// Ask this yes-or-no question whether to install.
    AskProceed(String),
    /// Ask this yes-or-no question whether to add the tool to `PATH`.
    AskAddToPath(String),
    /// Download and install the tool, and then report whether `PATH` is to
    /// be updated.
    Install { add_to_path: bool },
    /// Add the install directory of `target` to `PATH`.
    UpdatePath { target: String },
    /// Show this message and end.
    Finish(String),
    /// End without installing.
    Stop,
}

/// The question whether to add the tool to `PATH`.
pub open spec fn path_question() -> Seq<char> {
    "Add cpkg to PATH?\n\nRecommended: Yes"@
}

/// Whether `a` is what the installer does after `e`: ask whether to install
/// and stop on no; ask whether to add the tool to `PATH`; install; update
/// `PATH` only on yes; then show where the tool went.
pub open spec fn installer_step_is(e: InstallerEvent, a: InstallerAction) -> bool {
    match e {
        InstallerEvent::Start { install_dir, channel } => a matches InstallerAction::AskProceed(q)
            && q@ == install_prompt(install_dir@, channel),
        InstallerEvent::Proceed(false) => a is Stop,
        InstallerEvent::Proceed(true) => a matches InstallerAction::AskAddToPath(q) && q@
            == path_question(),
        InstallerEvent::AddToPath(b) => a matches InstallerAction::Install { add_to_path } && add_to_path
            == b,
        InstallerEvent::Installed { target, add_to_path } => if add_to_path {
            a matches InstallerAction::UpdatePath { target: t } && t@ == target@
        } else {
            a matches InstallerAction::Finish(m) && m@ == install_success(target@)
        },
        InstallerEvent::PathUpdated { target } => a matches InstallerAction::Finish(m) && m@
            == install_success(target@),
    }
}

/// The installer's next step after `event`.
pub fn installer_step(event: InstallerEvent) -> (a: InstallerAction)
    ensures
        installer_step_is(event, a),
{
    match event {
        InstallerEvent::Start { install_dir, channel } => InstallerAction::AskProceed(
            install_question(install_dir.as_str(), channel),
        ),
        InstallerEvent::Proceed(false) => InstallerAction::Stop,
        InstallerEvent::Proceed(true) => InstallerAction::AskAddToPath(
            "Add cpkg to PATH?\n\nRecommended: Yes".to_owned(),
        ),
        InstallerEvent::AddToPath(b) => InstallerAction::Install { add_to_path: b },
        InstallerEvent::Installed { target, add_to_path } => {
            if add_to_path {
                InstallerAction::UpdatePath { target }
            } else {
                InstallerAction::Finish(install_success_message(target.as_str()))
            }
        },
        InstallerEvent::PathUpdated { target } => InstallerAction::Finish(
            install_success_message(target.as_str()),
        ),
    }
}

// ---------------------------------------------------------------------------
// Adding the install directory to the machine `PATH`.

/// Whether a line of `reg query` output is the one of the `Path` value.
pub open spec fn is_path_line(l: Seq<char>) -> bool {
    occurs_in(l, "REG_"@) && occurs_in(l, "Path"@)
}

/// The value on a line of `reg query` output: the words after the value's
/// name and type, joined by single spaces.
pub open spec fn line_value(l: Seq<char>) -> Seq<char> {
    let w = words(l);
    if w.len() >= 2 {
        join_with(w.skip(2), " "@)
    } else {
        Seq::empty()
    }
}

/// The value on the first line of `ls` that is the one of `Path`; empty when
/// there is none.
pub open spec fn first_path_value(ls: Seq<Seq<char>>) -> Seq<char>
    decreases ls.len(),
{
    if ls.len() == 0 {
        Seq::empty()
    } else if is_path_line(ls[0]) {
        line_value(ls[0])
    } else {
        first_path_value(ls.drop_first())
    }
}

/// The `PATH` that the output of `reg query` shows.
pub open spec fn queried_path(out: Seq<char>) -> Seq<char> {
    first_path_value(lines_of(out))
}

/// Whether `dir` is one of the `;`-separated entries of `path`, white space
/// trimmed and ASCII case ignored.
pub open spec fn path_has_dir(path: Seq<char>, dir: Seq<char>) -> bool {
    exists|i: int|
        0 <= i < split_on(path, ';').len() && ascii_lower(trimmed(#[trigger] split_on(path, ';')[i]))
            == ascii_lower(dir)
}

/// `path` trimmed and extended by the entry `dir`.
pub open spec fn extended_path(path: Seq<char>, dir: Seq<char>) -> Seq<char> {
    if trimmed(path).len() == 0 {
        dir
    } else {
        trimmed(path) + ";"@ + dir
    }
}

/// The new `PATH` to store for `dir`, given the output of `reg query`; `None`
/// when `dir` is in it already.
pub open spec fn path_update(out: Seq<char>, dir: Seq<char>) -> Option<Seq<char>> {
    if path_has_dir(queried_path(out), dir) {
        None
    } else {
        Some(extended_path(queried_path(out), dir))
    }
}

/// The value on a line of `reg query` output.
fn value_of_line(line: &str) -> (r: String)
    ensures
        r@ == line_value(line@),
{
    let w = split_whitespace(line);
    if w.len() < 2 {
        return String::new();
    }
    let mut rest: Vec<&str> = Vec::new();
    let ghost wv = views(w@);
    let mut i: usize = 2;
    assert(views(rest@) =~= wv.subrange(2, 2));
    while i < w.len()
        invariant
            wv == views(w@),
            2 <= i <= w@.len(),
            views(rest@) == wv.subrange(2, i as int),
        decreases w@.len() - i,
    {
        let ghost before = views(rest@);
        rest.push(w[i]);
        assert(views(rest@) =~= before.push(w[i as int]@));
        assert(wv.subrange(2, i + 1) =~= wv.subrange(2, i as int).push(wv[i as int]));
        i = i + 1;
    }
    assert(wv.subrange(2, w@.len() as int) =~= wv.skip(2));
    crate::text::join(rest.as_slice(), " ")
}

/// The `PATH` that the output of `reg query` shows: the words after the name
/// and type on the first line that holds `REG_` and `Path`; empty when there
/// is no such line.
pub fn query_path_value(out: &str) -> (r: String)
    ensures
        r@ == queried_path(out@),
{
    let ls = lines(out);
    let ghost lv = views(ls@);
    let mut i: usize = 0;
    assert(lv.skip(0) =~= lv);
    while i < ls.len()
        invariant
            lv == views(ls@),
            lv == lines_of(out@),
            i <= lv.len(),
            first_path_value(lv) == first_path_value(lv.skip(i as int)),
        decreases lv.len() - i,
    {
        assert(lv.skip(i as int)[0] == ls[i as int]@);
        if contains(ls[i], "REG_") && contains(ls[i], "Path") {
            return value_of_line(ls[i]);
        }
        assert(lv.skip(i as int).drop_first() =~= lv.skip(i + 1));
        i = i + 1;
    }
    String::new()
}

/// Whether `dir` is one of the `;`-separated entries of `path`, white space
/// trimmed and ASCII case ignored.
pub fn path_contains_dir(path: &str, dir: &str) -> (r: bool)
    ensures
        r == path_has_dir(path@, dir@),
{
    let parts = split_char(path, ';');
    let ghost pv = views(parts@);
    let mut i: usize = 0;
    while i < parts.len()
        invariant
            pv == views(parts@),
            pv == split_on(path@, ';'),
            i <= pv.len(),
            forall|k: int| 0 <= k < i ==> ascii_lower(trimmed(#[trigger] pv[k])) != ascii_lower(dir@),
        decreases pv.len() - i,
    {
        if eq_ignore_ascii_case(trim(parts[i]), dir) {
            assert(pv[i as int] == parts[i as int]@);
            return true;
        }
        assert(pv[i as int] == parts[i as int]@);
        i = i + 1;
    }
    false
}

/// The new machine `PATH` that adds `install_dir`, given whether `reg query`
/// succeeded and what it printed: an error when the query failed; `None`
/// when the directory is there already, so that nothing is written.
pub fn add_install_dir_to_path(query_succeeded: bool, reg_query_output: &str, install_dir: &str) -> (r:
    Result<Option<String>, String>)
    ensures
        !query_succeeded ==> (r matches Err(e) && e@ == "Failed to query machine PATH from registry."@),
        query_succeeded ==> (r matches Ok(o) && opt_chars(o) == path_update(
            reg_query_output@,
            install_dir@,
        )),
{
    if !query_succeeded {
        return Err("Failed to query machine PATH from registry.".to_owned());
    }
    let current = query_path_value(reg_query_output);
    if path_contains_dir(current.as_str(), install_dir) {
        return Ok(None);
    }
    let t = trim(current.as_str());
    if t.unicode_len() == 0 {
        return Ok(Some(install_dir.to_owned()));
    }
    let mut p = t.to_owned();
    p.append(";");
    p.append(install_dir);
    Ok(Some(p))
}

/// How writing the new `PATH` with `reg add` ended: an error carrying what it
/// printed to standard error when it failed.
pub fn path_write_outcome(add_succeeded: bool, stderr: &str) -> (r: Result<(), String>)
    ensures
        r is Ok <==> add_succeeded,
        r matches Err(e) ==> e@ == "Failed to update PATH: "@ + stderr@,
{
    if add_succeeded {
        Ok(())
    } else {
        let mut e = "Failed to update PATH: ".to_owned();
        e.append(stderr);
        Err(e)
    }
}

/// Pieces of text with no separator in them are read as one piece.
pub proof fn lemma_pieces_without_sep(s: Seq<char>, c: char, cur: Seq<char>)
    requires
        !s.contains(c),
    ensures
        pieces_from(s, c, cur) == seq![cur + s],
    decreases s.len(),
{
    if s.len() > 0 {
        assert(s.drop_first().contains(c) ==> s.contains(c)) by {
            if s.drop_first().contains(c) {
                let k = choose|k: int| 0 <= k < s.drop_first().len() && s.drop_first()[k] == c;
                assert(s[k + 1] == c);
            }
        }
        assert(s[0] != c);
        lemma_pieces_without_sep(s.drop_first(), c, cur.push(s[0]));
        assert(cur.push(s[0]) + s.drop_first() =~= cur + s);
    } else {
        assert(cur + s =~= cur);
    }
}

/// After the last separator, the last piece is what follows it.
pub proof fn lemma_last_piece(s: Seq<char>, b: Seq<char>, c: char, cur: Seq<char>)
    requires
        !b.contains(c),
    ensures
        pieces_from(s + seq![c] + b, c, cur).last() == b,
    decreases s.len(),
{
    let t = s + seq![c] + b;
    lemma_pieces_without_sep(b, c, Seq::empty());
    assert(Seq::<char>::empty() + b =~= b);
    if s.len() == 0 {
        assert(t[0] == c);
        assert(t.drop_first() =~= b);
    } else {
        assert(t[0] == s[0]);
        assert(t.drop_first() =~= s.drop_first() + seq![c] + b);
        if s[0] == c {
            lemma_last_piece(s.drop_first(), b, c, Seq::empty());
            lemma_pieces_nonempty(s.drop_first() + seq![c] + b, c, Seq::empty());
        } else {
            lemma_last_piece(s.drop_first(), b, c, cur.push(s[0]));
        }
    }
}

/// Once the install directory has been added, it is found in the new `PATH`,
/// so that adding it again changes nothing; this holds of a directory with no
/// `;` in it and no white space around it.
pub proof fn lemma_added_dir_is_found(path: Seq<char>, dir: Seq<char>)
    requires
        !dir.contains(';'),
        trimmed(dir) == dir,
    ensures
        path_has_dir(extended_path(path, dir), dir),
{
    let e = extended_path(path, dir);
    if trimmed(path).len() == 0 {
        lemma_pieces_without_sep(dir, ';', Seq::empty());
        assert(Seq::<char>::empty() + dir =~= dir);
        assert(split_on(e, ';')[0] == dir);
    } else {
        reveal_strlit(";");
        assert(e =~= trimmed(path) + seq![';'] + dir);
        lemma_last_piece(trimmed(path), dir, ';', Seq::empty());
        lemma_pieces_nonempty(e, ';', Seq::empty());
        let k = split_on(e, ';').len() - 1;
        assert(split_on(e, ';')[k] == dir);
    }
}

} // verus!
