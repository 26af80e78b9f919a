//! Character-level string operations with exact specifications.

use vstd::prelude::*;

verus! {

/// The Unicode `White_Space` property.
pub open spec fn is_white_space(c: char) -> bool {
    ||| ('\u{9}' <= c && c <= '\u{d}')
    ||| c == ' '
    ||| c == '\u{85}'
    ||| c == '\u{a0}'
    ||| c == '\u{1680}'
    ||| ('\u{2000}' <= c && c <= '\u{200a}')
    ||| c == '\u{2028}'
    ||| c == '\u{2029}'
    ||| c == '\u{202f}'
    ||| c == '\u{205f}'
    ||| c == '\u{3000}'
}

/// `s` without its leading white space.
pub open spec fn trim_start(s: Seq<char>) -> Seq<char>
    decreases s.len(),
{
    if s.len() > 0 && is_white_space(s[0]) {
        trim_start(s.drop_first())
    } else {
        s
    }
}

/// `s` without its trailing white space.
pub open spec fn trim_end(s: Seq<char>) -> Seq<char>
    decreases s.len(),
{
    if s.len() > 0 && is_white_space(s.last()) {
        trim_end(s.drop_last())
    } else {
        s
    }
}

/// `s` without leading and trailing white space.
pub open spec fn trimmed(s: Seq<char>) -> Seq<char> {
    trim_end(trim_start(s))
}

/// Whether `c` is white space in the sense of Unicode.
pub fn is_whitespace(c: char) -> (r: bool)
    ensures
        r == is_white_space(c),
{
    ('\u{9}' <= c && c <= '\u{d}') || c == ' ' || c == '\u{85}' || c == '\u{a0}' || c
        == '\u{1680}' || ('\u{2000}' <= c && c <= '\u{200a}') || c == '\u{2028}' || c
        == '\u{2029}' || c == '\u{202f}' || c == '\u{205f}' || c == '\u{3000}'
}

/// The part of `s` between its leading and its trailing white space.
pub fn trim(s: &str) -> (r: &str)
    ensures
        r@ == trimmed(s@),
{
    let n = s.unicode_len();
    let mut lo: usize = 0;
    assert(s@.subrange(0, n as int) =~= s@);
    while lo < n && is_whitespace(s.get_char(lo))
        invariant
            n == s@.len(),
            lo <= n,
            trim_start(s@) == trim_start(s@.subrange(lo as int, n as int)),
        decreases n - lo,
    {
        assert(s@.subrange(lo as int, n as int).drop_first() =~= s@.subrange(lo + 1, n as int));
        lo = lo + 1;
    }
    assert(trim_start(s@) == s@.subrange(lo as int, n as int));
    let mut hi: usize = n;
    while hi > lo && is_whitespace(s.get_char(hi - 1))
        invariant
            n == s@.len(),
            lo <= hi <= n,
            trimmed(s@) == trim_end(s@.subrange(lo as int, hi as int)),
        decreases hi - lo,
    {
        assert(s@.subrange(lo as int, hi as int).drop_last() =~= s@.subrange(
            lo as int,
            hi - 1,
        ));
        hi = hi - 1;
    }
    s.substring_char(lo, hi)
}

/// Whether `p` occurs in `s` starting at index `at`.
pub open spec fn occurs_at(s: Seq<char>, at: int, p: Seq<char>) -> bool {
    0 <= at && at + p.len() <= s.len() && s.subrange(at, at + p.len()) == p
}

/// Whether `p` occurs anywhere in `s`.
pub open spec fn occurs_in(s: Seq<char>, p: Seq<char>) -> bool {
    exists|i: int| occurs_at(s, i, p)
}

/// `s` after removing `p` from its end for as long as it ends with `p`
/// (nothing is removed when `p` is empty).
pub open spec fn strip_suffixes(s: Seq<char>, p: Seq<char>) -> Seq<char>
    decreases s.len(),
{
    if p.len() > 0 && p.is_suffix_of(s) {
        strip_suffixes(s.subrange(0, s.len() - p.len()), p)
    } else {
        s
    }
}

/// Whether the characters of `s` from index `at` on begin with `p`.
pub fn matches_at(s: &str, at: usize, p: &str) -> (r: bool)
    ensures
        r == occurs_at(s@, at as int, p@),
{
    let n = s.unicode_len();
    let m = p.unicode_len();
    if at > n || m > n - at {
        return false;
    }
    let mut j: usize = 0;
    while j < m
        invariant
            n == s@.len(),
            m == p@.len(),
            at + m <= n,
            j <= m,
            forall|k: int| 0 <= k < j ==> s@[at + k] == p@[k],
        decreases m - j,
    {
        if s.get_char(at + j) != p.get_char(j) {
            assert(s@.subrange(at as int, at + m)[j as int] != p@[j as int]);
            return false;
        }
        j = j + 1;
    }
    assert(s@.subrange(at as int, at + m) =~= p@);
    true
}

/// Whether `a` and `b` hold the same characters.
pub fn str_equal(a: &str, b: &str) -> (r: bool)
    ensures
        r == (a@ == b@),
{
    if a.unicode_len() != b.unicode_len() {
        return false;
    }
    let r = matches_at(a, 0, b);
    assert(a@.subrange(0, b@.len() as int) =~= a@);
    r
}

/// Whether `s` begins with `p`.
pub fn starts_with(s: &str, p: &str) -> (r: bool)
    ensures
        r == p@.is_prefix_of(s@),
{
    matches_at(s, 0, p)
}

/// Whether `p` occurs in `s`.
pub fn contains(s: &str, p: &str) -> (r: bool)
    ensures
        r == occurs_in(s@, p@),
{
    let n = s.unicode_len();
    let m = p.unicode_len();
    if m > n {
        assert(!occurs_in(s@, p@));
        return false;
    }
    if m == 0 {
        assert(s@.subrange(0, 0) =~= p@);
        assert(occurs_at(s@, 0, p@));
        return true;
    }
    let mut i: usize = 0;
    while i <= n - m
        invariant
            n == s@.len(),
            m == p@.len(),
            0 < m <= n,
            i <= n - m + 1,
            forall|k: int| 0 <= k < i ==> !occurs_at(s@, k, p@),
        decreases n - m + 1 - i,
    {
        if matches_at(s, i, p) {
            return true;
        }
        i = i + 1;
    }
    assert forall|k: int| !occurs_at(s@, k, p@) by {
        if 0 <= k && k + m <= n {
            assert(k < i);
        }
    }
    false
}

/// `s` with every trailing repetition of `p` removed.
pub fn trim_end_matches<'a>(s: &'a str, p: &str) -> (r: &'a str)
    ensures
        r@ == strip_suffixes(s@, p@),
{
    let n = s.unicode_len();
    let m = p.unicode_len();
    if m == 0 {
        return s;
    }
    let mut end: usize = n;
    assert(s@.subrange(0, n as int) =~= s@);
    while end >= m && matches_at(s, end - m, p)
        invariant
            n == s@.len(),
            m == p@.len(),
            m > 0,
            end <= n,
            strip_suffixes(s@, p@) == strip_suffixes(s@.subrange(0, end as int), p@),
        decreases end,
    {
        let ghost t = s@.subrange(0, end as int);
        assert(t.subrange(end - m, end as int) =~= s@.subrange(end - m, end as int));
        assert(t.subrange(0, end - m) =~= s@.subrange(0, end - m));
        end = end - m;
    }
    let ghost t = s@.subrange(0, end as int);
    if end >= m {
        assert(t.subrange(end - m, end as int) =~= s@.subrange(end - m, end as int));
    }
    s.substring_char(0, end)
}

/// The views of a sequence of string slices.
pub open spec fn views(v: Seq<&str>) -> Seq<Seq<char>> {
    v.map_values(|x: &str| x@)
}

/// The views of a sequence of strings.
pub open spec fn string_views(v: Seq<String>) -> Seq<Seq<char>> {
    v.map_values(|x: String| x@)
}

/// Appends `line` to `lines`.
pub fn push_line(lines: &mut Vec<String>, line: String)
    ensures
        string_views(final(lines)@) == string_views(old(lines)@).push(line@),
{
    lines.push(line);
    assert(string_views(lines@) =~= string_views(old(lines)@).push(line@));
}

/// The pieces of `s` between occurrences of `c`, where `cur` is the piece
/// being read when `s` begins.
pub open spec fn pieces_from(s: Seq<char>, c: char, cur: Seq<char>) -> Seq<Seq<char>>
    decreases s.len(),
{
    if s.len() == 0 {
        seq![cur]
    } else if s[0] == c {
        seq![cur] + pieces_from(s.drop_first(), c, Seq::empty())
    } else {
        pieces_from(s.drop_first(), c, cur.push(s[0]))
    }
}

/// The pieces of `s` between occurrences of `c`: one more than the number of
/// occurrences, empty pieces included.
pub open spec fn split_on(s: Seq<char>, c: char) -> Seq<Seq<char>> {
    pieces_from(s, c, Seq::empty())
}

/// There is always at least one piece.
pub proof fn lemma_pieces_nonempty(s: Seq<char>, c: char, cur: Seq<char>)
    ensures
        pieces_from(s, c, cur).len() >= 1,
    decreases s.len(),
{
    if s.len() > 0 {
        if s[0] == c {
            lemma_pieces_nonempty(s.drop_first(), c, Seq::empty());
        } else {
            lemma_pieces_nonempty(s.drop_first(), c, cur.push(s[0]));
        }
    }
}

/// The pieces of `s` between occurrences of `c`.
pub fn split_char<'a>(s: &'a str, c: char) -> (v: Vec<&'a str>)
    ensures
        views(v@) == split_on(s@, c),
        v@.len() >= 1,
{
    let n = s.unicode_len();
    let mut v: Vec<&'a str> = Vec::new();
    let mut start: usize = 0;
    let mut i: usize = 0;
    assert(s@.skip(0) =~= s@);
    assert(s@.subrange(0, 0) =~= Seq::<char>::empty());
    while i < n
        invariant
            n == s@.len(),
            start <= i <= n,
            split_on(s@, c) == views(v@) + pieces_from(
                s@.skip(i as int),
                c,
                s@.subrange(start as int, i as int),
            ),
        decreases n - i,
    {
        let ghost rest = s@.skip(i as int);
        assert(rest.drop_first() =~= s@.skip(i + 1));
        assert(rest[0] == s@[i as int]);
        if s.get_char(i) == c {
            let piece = s.substring_char(start, i);
            let ghost before = views(v@);
            v.push(piece);
            assert(views(v@) =~= before + seq![piece@]);
            assert(s@.subrange((i + 1) as int, (i + 1) as int) =~= Seq::<char>::empty());
            start = i + 1;
        } else {
            assert(s@.subrange(start as int, i as int).push(s@[i as int]) =~= s@.subrange(
                start as int,
                i + 1,
            ));
        }
        i = i + 1;
    }
    let piece = s.substring_char(start, n);
    let ghost before = views(v@);
    v.push(piece);
    assert(views(v@) =~= before + seq![piece@]);
    assert(s@.skip(n as int).len() == 0);
    v
}

/// The first piece of `s` before any occurrence of `c` (all of `s` when `c`
/// does not occur).
pub fn prefix_before<'a>(s: &'a str, c: char) -> (r: &'a str)
    ensures
        r@ == split_on(s@, c)[0],
{
    let v = split_char(s, c);
    v[0]
}

/// The last piece of `s` after every occurrence of `c` (all of `s` when `c`
/// does not occur).
pub fn suffix_after_last<'a>(s: &'a str, c: char) -> (r: &'a str)
    ensures
        r@ == split_on(s@, c).last(),
{
    let v = split_char(s, c);
    v[v.len() - 1]
}

/// The words of `s` (maximal runs of characters that are not white space),
/// where `cur` is the word being read when `s` begins.
pub open spec fn words_from(s: Seq<char>, cur: Seq<char>) -> Seq<Seq<char>>
    decreases s.len(),
{
    if s.len() == 0 {
        if cur.len() > 0 {
            seq![cur]
        } else {
            seq![]
        }
    } else if is_white_space(s[0]) {
        (if cur.len() > 0 {
            seq![cur]
        } else {
            seq![]
        }) + words_from(s.drop_first(), Seq::empty())
    } else {
        words_from(s.drop_first(), cur.push(s[0]))
    }
}

/// The words of `s`: its maximal runs of characters that are not white space.
pub open spec fn words(s: Seq<char>) -> Seq<Seq<char>> {
    words_from(s, Seq::empty())
}

/// The words of `s`, in order.
pub fn split_whitespace<'a>(s: &'a str) -> (v: Vec<&'a str>)
    ensures
        views(v@) == words(s@),
{
    let n = s.unicode_len();
    let mut v: Vec<&'a str> = Vec::new();
    let mut start: usize = 0;
    let mut i: usize = 0;
    assert(s@.skip(0) =~= s@);
    assert(s@.subrange(0, 0) =~= Seq::<char>::empty());
    while i < n
        invariant
            n == s@.len(),
            start <= i <= n,
            words(s@) == views(v@) + words_from(
                s@.skip(i as int),
                s@.subrange(start as int, i as int),
            ),
        decreases n - i,
    {
        let ghost rest = s@.skip(i as int);
        assert(rest.drop_first() =~= s@.skip(i + 1));
        assert(rest[0] == s@[i as int]);
        if is_whitespace(s.get_char(i)) {
            if start < i {
                let piece = s.substring_char(start, i);
                let ghost before = views(v@);
                v.push(piece);
                assert(views(v@) =~= before + seq![piece@]);
            } else {
                assert(views(v@) + seq![] =~= views(v@));
            }
            assert(s@.subrange((i + 1) as int, (i + 1) as int) =~= Seq::<char>::empty());
            start = i + 1;
        } else {
            assert(s@.subrange(start as int, i as int).push(s@[i as int]) =~= s@.subrange(
                start as int,
                i + 1,
            ));
        }
        i = i + 1;
    }
    assert(s@.skip(n as int).len() == 0);
    if start < n {
        let piece = s.substring_char(start, n);
        let ghost before = views(v@);
        v.push(piece);
        assert(views(v@) =~= before + seq![piece@]);
    } else {
        assert(views(v@) + seq![] =~= views(v@));
    }
    v
}

/// `l` without one trailing carriage return.
pub open spec fn strip_cr(l: Seq<char>) -> Seq<char> {
    if l.len() > 0 && l.last() == '\r' {
        l.drop_last()
    } else {
        l
    }
}

/// The lines of `s`: split at `\n`, a `\r` before a `\n` removed, and no line
/// after a final `\n`.
pub open spec fn lines_of(s: Seq<char>) -> Seq<Seq<char>> {
    let ps = split_on(s, '\n');
    let ended = ps.take(ps.len() - 1).map_values(|l: Seq<char>| strip_cr(l));
    if ps.last().len() > 0 {
        ended.push(ps.last())
    } else {
        ended
    }
}

/// `l` without a trailing carriage return.
fn without_cr<'a>(l: &'a str) -> (r: &'a str)
    ensures
        r@ == strip_cr(l@),
{
    let n = l.unicode_len();
    if n > 0 && l.get_char(n - 1) == '\r' {
        l.substring_char(0, n - 1)
    } else {
        l
    }
}

/// The lines of `s`, in order.
pub fn lines<'a>(s: &'a str) -> (v: Vec<&'a str>)
    ensures
        views(v@) == lines_of(s@),
{
    let ps = split_char(s, '\n');
    let k = ps.len() - 1;
    let mut v: Vec<&'a str> = Vec::new();
    let ghost pv = split_on(s@, '\n');
    let mut i: usize = 0;
    while i < k
        invariant
            k == ps@.len() - 1,
            views(ps@) == pv,
            i <= k,
            views(v@) == pv.take(i as int).map_values(|l: Seq<char>| strip_cr(l)),
        decreases k - i,
    {
        let l = without_cr(ps[i]);
        let ghost before = views(v@);
        v.push(l);
        assert(views(v@) =~= before.push(l@));
        assert(pv.take(i + 1).map_values(|l: Seq<char>| strip_cr(l)) =~= pv.take(
            i as int,
        ).map_values(|l: Seq<char>| strip_cr(l)).push(strip_cr(pv[i as int])));
        i = i + 1;
    }
    let last = ps[k];
    if last.unicode_len() > 0 {
        let ghost before = views(v@);
        v.push(last);
        assert(views(v@) =~= before.push(last@));
    }
    v
}

/// `parts` joined, with `sep` between neighbours.
pub open spec fn join_with(parts: Seq<Seq<char>>, sep: Seq<char>) -> Seq<char>
    decreases parts.len(),
{
    if parts.len() == 0 {
        Seq::empty()
    } else if parts.len() == 1 {
        parts[0]
    } else {
        join_with(parts.drop_last(), sep) + sep + parts.last()
    }
}

/// `parts` joined into one string, with `sep` between neighbours.
pub fn join_strings(parts: &Vec<String>, sep: &str) -> (r: String)
    ensures
        r@ == join_with(string_views(parts@), sep@),
{
    let mut r = String::new();
    let ghost pv = string_views(parts@);
    let mut i: usize = 0;
    while i < parts.len()
        invariant
            pv == string_views(parts@),
            i <= parts@.len(),
            r@ == join_with(pv.take(i as int), sep@),
        decreases parts@.len() - i,
    {
        assert(pv.take(i + 1).drop_last() =~= pv.take(i as int));
        if i > 0 {
            r.append(sep);
        }
        r.append(parts[i].as_str());
        i = i + 1;
    }
    assert(pv.take(parts@.len() as int) =~= pv);
    r
}

/// `parts` joined into one string, with `sep` between neighbours.
pub fn join(parts: &[&str], sep: &str) -> (r: String)
    ensures
        r@ == join_with(views(parts@), sep@),
{
    let mut r = String::new();
    let ghost pv = views(parts@);
    let mut i: usize = 0;
    while i < parts.len()
        invariant
            pv == views(parts@),
            i <= parts@.len(),
            r@ == join_with(pv.take(i as int), sep@),
        decreases parts@.len() - i,
    {
        assert(pv.take(i + 1).drop_last() =~= pv.take(i as int));
        if i > 0 {
            r.append(sep);
        }
        r.append(parts[i]);
        i = i + 1;
    }
    assert(pv.take(parts@.len() as int) =~= pv);
    r
}

/// `c` with an ASCII upper-case letter mapped to its lower-case letter.
pub open spec fn ascii_fold(c: char) -> char {
    if 'A' <= c && c <= 'Z' {
        ((c as u32) + 32) as char
    } else {
        c
    }
}

/// `s` with every ASCII upper-case letter mapped to its lower-case letter.
pub open spec fn ascii_lower(s: Seq<char>) -> Seq<char> {
    s.map_values(|c: char| ascii_fold(c))
}

/// The lower-case form of an ASCII letter; any other character unchanged.
pub fn to_ascii_lowercase(c: char) -> (r: char)
    ensures
        r == ascii_fold(c),
{
    if 'A' <= c && c <= 'Z' {
        ((c as u8) + 32) as char
    } else {
        c
    }
}

/// Whether `a` and `b` are equal when ASCII letters are compared without
/// regard to case.
pub fn eq_ignore_ascii_case(a: &str, b: &str) -> (r: bool)
    ensures
        r == (ascii_lower(a@) == ascii_lower(b@)),
{
    let n = a.unicode_len();
    if n != b.unicode_len() {
        assert(ascii_lower(a@).len() != ascii_lower(b@).len());
        return false;
    }
    let mut i: usize = 0;
    while i < n
        invariant
            n == a@.len() == b@.len(),
            i <= n,
            forall|k: int| 0 <= k < i ==> ascii_fold(a@[k]) == ascii_fold(b@[k]),
        decreases n - i,
    {
        if to_ascii_lowercase(a.get_char(i)) != to_ascii_lowercase(b.get_char(i)) {
            assert(ascii_lower(a@)[i as int] != ascii_lower(b@)[i as int]);
            return false;
        }
        i = i + 1;
    }
    assert(ascii_lower(a@) =~= ascii_lower(b@));
    true
}

/// Whether `p` occurs in `s` when ASCII letters are compared without regard
/// to case.
pub fn contains_ignore_ascii_case(s: &str, p: &str) -> (r: bool)
    ensures
        r == occurs_in(ascii_lower(s@), ascii_lower(p@)),
{
    let n = s.unicode_len();
    let m = p.unicode_len();
    let ghost ls = ascii_lower(s@);
    let ghost lp = ascii_lower(p@);
    if m > n {
        assert(!occurs_in(ls, lp));
        return false;
    }
    if m == 0 {
        assert(ls.subrange(0, 0) =~= lp);
        assert(occurs_at(ls, 0, lp));
        return true;
    }
    let mut i: usize = 0;
    while i <= n - m
        invariant
            n == s@.len() == ls.len(),
            m == p@.len() == lp.len(),
            ls == ascii_lower(s@),
            lp == ascii_lower(p@),
            0 < m <= n,
            i <= n - m + 1,
            forall|k: int| 0 <= k < i ==> !occurs_at(ls, k, lp),
        decreases n - m + 1 - i,
    {
        let mut j: usize = 0;
        let mut same = true;
        while j < m
            invariant
                n == s@.len() == ls.len(),
                m == p@.len() == lp.len(),
                ls == ascii_lower(s@),
                lp == ascii_lower(p@),
                i + m <= n,
                j <= m,
                same ==> forall|k: int| 0 <= k < j ==> ls[i + k] == lp[k],
                !same ==> !occurs_at(ls, i as int, lp),
            decreases m - j,
        {
            if same && to_ascii_lowercase(s.get_char(i + j)) != to_ascii_lowercase(p.get_char(j)) {
                assert(ls.subrange(i as int, i + m)[j as int] != lp[j as int]);
                same = false;
            }
            j = j + 1;
        }
        if same {
            assert(ls.subrange(i as int, i + m) =~= lp);
            assert(occurs_at(ls, i as int, lp));
            return true;
        }
        i = i + 1;
    }
    assert forall|k: int| !occurs_at(ls, k, lp) by {
        if 0 <= k && k + m <= n {
            assert(k < i);
        }
    }
    false
}

/// The decimal digit for `d < 10`.
pub open spec fn digit_char(d: nat) -> char {
    if d == 0 {
        '0'
    } else if d == 1 {
        '1'
    } else if d == 2 {
        '2'
    } else if d == 3 {
        '3'
    } else if d == 4 {
        '4'
    } else if d == 5 {
        '5'
    } else if d == 6 {
        '6'
    } else if d == 7 {
        '7'
    } else if d == 8 {
        '8'
    } else {
        '9'
    }
}

/// The decimal notation of `n`, without leading zeros.
pub open spec fn decimal(n: nat) -> Seq<char>
    decreases n,
{
    if n < 10 {
        seq![digit_char(n)]
    } else {
        decimal(n / 10).push(digit_char(n % 10))
    }
}

fn digit_str(d: u64) -> (r: &'static str)
    requires
        d < 10,
    ensures
        r@ == seq![digit_char(d as nat)],
{
    proof {
        reveal_strlit("0");
        reveal_strlit("1");
        reveal_strlit("2");
        reveal_strlit("3");
        reveal_strlit("4");
        reveal_strlit("5");
        reveal_strlit("6");
        reveal_strlit("7");
        reveal_strlit("8");
        reveal_strlit("9");
    }
    if d == 0 {
        "0"
    } else if d == 1 {
        "1"
    } else if d == 2 {
        "2"
    } else if d == 3 {
        "3"
    } else if d == 4 {
        "4"
    } else if d == 5 {
        "5"
    } else if d == 6 {
        "6"
    } else if d == 7 {
        "7"
    } else if d == 8 {
        "8"
    } else {
        "9"
    }
}

/// The decimal notation of `n`, as `format!("{n}")` writes it.
pub fn decimal_string(n: u64) -> (r: String)
    ensures
        r@ == decimal(n as nat),
    decreases n,
{
    if n < 10 {
        digit_str(n).to_owned()
    } else {
        let mut r = decimal_string(n / 10);
        r.append(digit_str(n % 10));
        r
    }
}

} // verus!
