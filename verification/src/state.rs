//! The list of installed apps: recording an installation, removing one, and
//! choosing what to update.

use crate::manifest::{
    file_name_from_download_url, normalize_app_id, normalized_app_id, url_file_name, AppManifest,
};
use crate::sys::{is_join_of, join_path, now_unix_seconds};
use crate::text::{
    ascii_lower, decimal, decimal_string, eq_ignore_ascii_case, push_line, str_equal, string_views,
};
use vstd::prelude::*;
use vstd::seq_lib::lemma_multiset_commutative;

verus! {

broadcast use vstd::seq_lib::group_to_multiset_ensures;

/// One installed app, as the state file records it.
#[derive(Debug)]
pub struct InstalledApp {
    pub app_id: String,
    pub name: String,
    pub repo: String,
    pub description: String,
    pub download: String,
    pub installed_file: String,
    pub installed_at_unix: u64,
}

/// What an installed app's record holds, as values.
pub struct InstalledAppView {
    pub app_id: Seq<char>,
    pub name: Seq<char>,
    pub repo: Seq<char>,
    pub description: Seq<char>,
    pub download: Seq<char>,
    pub installed_file: Seq<char>,
    pub installed_at_unix: u64,
}

impl View for InstalledApp {
    type V = InstalledAppView;

    open spec fn view(&self) -> InstalledAppView {
        InstalledAppView {
            app_id: self.app_id@,
            name: self.name@,
            repo: self.repo@,
            description: self.description@,
            download: self.download@,
            installed_file: self.installed_file@,
            installed_at_unix: self.installed_at_unix,
        }
    }
}

/// The records of all installed apps.
#[derive(Debug)]
pub struct InstalledState {
    pub apps: Vec<InstalledApp>,
}

/// The views of a sequence of records.
pub open spec fn records(v: Seq<InstalledApp>) -> Seq<InstalledAppView> {
    v.map_values(|a: InstalledApp| a@)
}

impl View for InstalledState {
    type V = Seq<InstalledAppView>;

    open spec fn view(&self) -> Seq<InstalledAppView> {
        records(self.apps@)
    }
}

impl InstalledState {
    /// A state with no app installed.
    pub fn new() -> (r: Self)
        ensures
            r@ == Seq::<InstalledAppView>::empty(),
    {
        let r = InstalledState { apps: Vec::new() };
        assert(r@ =~= Seq::<InstalledAppView>::empty());
        r
    }
}

// ---------------------------------------------------------------------------
// The order of app ids.

/// `a` comes strictly before `b` in the lexicographic order of their
/// characters, which is the byte order of their UTF-8 encodings.
pub open spec fn id_lt(a: Seq<char>, b: Seq<char>) -> bool
    decreases a.len(),
{
    if a.len() == 0 {
        b.len() > 0
    } else if b.len() == 0 {
        false
    } else if a[0] != b[0] {
        a[0] < b[0]
    } else {
        id_lt(a.drop_first(), b.drop_first())
    }
}

/// No id comes before itself.
pub proof fn lemma_id_lt_irreflexive(a: Seq<char>)
    ensures
        !id_lt(a, a),
    decreases a.len(),
{
    if a.len() > 0 {
        lemma_id_lt_irreflexive(a.drop_first());
    }
}

/// Of two different ids, one comes before the other, and never both.
pub proof fn lemma_id_lt_total(a: Seq<char>, b: Seq<char>)
    ensures
        a != b ==> (id_lt(a, b) || id_lt(b, a)),
        !(id_lt(a, b) && id_lt(b, a)),
    decreases a.len(),
{
    if a.len() > 0 && b.len() > 0 && a[0] == b[0] {
        lemma_id_lt_total(a.drop_first(), b.drop_first());
        if a != b {
            assert(a =~= seq![a[0]] + a.drop_first());
            assert(b =~= seq![b[0]] + b.drop_first());
        }
    } else if a.len() == 0 && b.len() == 0 {
        assert(a =~= b);
    }
}

/// The order of ids is transitive.
pub proof fn lemma_id_lt_transitive(a: Seq<char>, b: Seq<char>, c: Seq<char>)
    requires
        id_lt(a, b),
        id_lt(b, c),
    ensures
        id_lt(a, c),
    decreases a.len(),
{
    if a.len() > 0 && b.len() > 0 && c.len() > 0 && a[0] == b[0] && b[0] == c[0] {
        lemma_id_lt_transitive(a.drop_first(), b.drop_first(), c.drop_first());
    }
}

/// Whether `a` comes strictly before `b` in the order of app ids.
pub fn id_less(a: &str, b: &str) -> (r: bool)
    ensures
        r == id_lt(a@, b@),
{
    let n = a.unicode_len();
    let m = b.unicode_len();
    let mut i: usize = 0;
    assert(a@.skip(0) =~= a@);
    assert(b@.skip(0) =~= b@);
    while i < n && i < m && a.get_char(i) == b.get_char(i)
        invariant
            n == a@.len(),
            m == b@.len(),
            i <= n,
            i <= m,
            id_lt(a@, b@) == id_lt(a@.skip(i as int), b@.skip(i as int)),
        decreases n - i,
    {
        assert(a@.skip(i as int).drop_first() =~= a@.skip(i + 1));
        assert(b@.skip(i as int).drop_first() =~= b@.skip(i + 1));
        i = i + 1;
    }
    assert(a@.skip(i as int).len() == n - i);
    assert(b@.skip(i as int).len() == m - i);
    if i < n && i < m {
        assert(a@.skip(i as int)[0] == a@[i as int]);
        assert(b@.skip(i as int)[0] == b@[i as int]);
    }
    if i == n {
        i < m
    } else if i == m {
        false
    } else {
        a.get_char(i) < b.get_char(i)
    }
}

// ---------------------------------------------------------------------------
// Sorting records by id, stably.

/// Where `x` goes among records sorted by id: before the first record whose
/// id comes after `x`'s.
pub open spec fn insert_pos(s: Seq<InstalledAppView>, x: InstalledAppView) -> nat
    decreases s.len(),
{
    if s.len() == 0 {
        0
    } else if id_lt(x.app_id, s[0].app_id) {
        0
    } else {
        1 + insert_pos(s.drop_first(), x)
    }
}

/// `s` with `x` put after every record whose id does not come after `x`'s.
pub open spec fn insert_sorted(s: Seq<InstalledAppView>, x: InstalledAppView) -> Seq<
    InstalledAppView,
> {
    s.insert(insert_pos(s, x) as int, x)
}

/// `s` sorted by id, records with equal ids kept in their order.
pub open spec fn sorted_by_id(s: Seq<InstalledAppView>) -> Seq<InstalledAppView>
    decreases s.len(),
{
    if s.len() == 0 {
        s
    } else {
        insert_sorted(sorted_by_id(s.drop_last()), s.last())
    }
}

/// Whether the ids of `s` never go down.
pub open spec fn is_sorted_by_id(s: Seq<InstalledAppView>) -> bool {
    forall|i: int, j: int| 0 <= i < j < s.len() ==> !id_lt(s[j].app_id, s[i].app_id)
}

proof fn lemma_insert_pos_bound(s: Seq<InstalledAppView>, x: InstalledAppView)
    ensures
        insert_pos(s, x) <= s.len(),
        forall|k: int| 0 <= k < insert_pos(s, x) ==> !id_lt(x.app_id, #[trigger] s[k].app_id),
        insert_pos(s, x) < s.len() ==> id_lt(x.app_id, s[insert_pos(s, x) as int].app_id),
    decreases s.len(),
{
    if s.len() > 0 && !id_lt(x.app_id, s[0].app_id) {
        lemma_insert_pos_bound(s.drop_first(), x);
        assert forall|k: int| 0 <= k < insert_pos(s, x) implies !id_lt(
            x.app_id,
            #[trigger] s[k].app_id,
        ) by {
            if k > 0 {
                assert(s[k] == s.drop_first()[k - 1]);
            }
        }
    }
}

/// The first index from which `s` has records whose id comes after `x`'s.
proof fn lemma_insert_pos_in_sorted(s: Seq<InstalledAppView>, x: InstalledAppView)
    requires
        is_sorted_by_id(s),
    ensures
        forall|k: int|
            insert_pos(s, x) <= k < s.len() ==> id_lt(x.app_id, #[trigger] s[k].app_id),
{
    lemma_insert_pos_bound(s, x);
    let p = insert_pos(s, x) as int;
    assert forall|k: int| p <= k < s.len() implies id_lt(x.app_id, #[trigger] s[k].app_id) by {
        if k > p {
            lemma_id_lt_total(s[k].app_id, s[p].app_id);
            if id_lt(s[p].app_id, s[k].app_id) {
                lemma_id_lt_transitive(x.app_id, s[p].app_id, s[k].app_id);
            } else {
                assert(s[p].app_id == s[k].app_id);
            }
        }
    }
}

proof fn lemma_insert_sorted_sorted(s: Seq<InstalledAppView>, x: InstalledAppView)
    requires
        is_sorted_by_id(s),
    ensures
        is_sorted_by_id(insert_sorted(s, x)),
{
    lemma_insert_pos_bound(s, x);
    lemma_insert_pos_in_sorted(s, x);
    let p = insert_pos(s, x) as int;
    let t = insert_sorted(s, x);
    assert forall|i: int, j: int| 0 <= i < j < t.len() implies !id_lt(
        t[j].app_id,
        t[i].app_id,
    ) by {
        if i < p && j == p {
            assert(!id_lt(x.app_id, s[i].app_id));
        } else if i == p && j > p {
            assert(id_lt(x.app_id, s[j - 1].app_id));
            lemma_id_lt_total(x.app_id, s[j - 1].app_id);
        } else if i < p && j > p {
            assert(!id_lt(s[j - 1].app_id, s[i].app_id));
        } else if j < p {
        } else {
            assert(!id_lt(s[j - 1].app_id, s[i - 1].app_id));
        }
    }
}

/// Sorting by id gives records whose ids never go down.
pub proof fn lemma_sorted_by_id_sorted(s: Seq<InstalledAppView>)
    ensures
        is_sorted_by_id(sorted_by_id(s)),
    decreases s.len(),
{
    if s.len() > 0 {
        lemma_sorted_by_id_sorted(s.drop_last());
        lemma_insert_sorted_sorted(sorted_by_id(s.drop_last()), s.last());
    }
}

/// The records of `s` with id `id`, in order.
pub open spec fn with_id(s: Seq<InstalledAppView>, id: Seq<char>) -> Seq<InstalledAppView>
    decreases s.len(),
{
    if s.len() == 0 {
        s
    } else if s.last().app_id == id {
        with_id(s.drop_last(), id).push(s.last())
    } else {
        with_id(s.drop_last(), id)
    }
}

proof fn lemma_with_id_append(a: Seq<InstalledAppView>, b: Seq<InstalledAppView>, id: Seq<char>)
    ensures
        with_id(a + b, id) == with_id(a, id) + with_id(b, id),
    decreases b.len(),
{
    if b.len() == 0 {
        assert(a + b =~= a);
        assert(with_id(a, id) + with_id(b, id) =~= with_id(a, id));
    } else {
        lemma_with_id_append(a, b.drop_last(), id);
        assert((a + b).drop_last() =~= a + b.drop_last());
        assert((a + b).last() == b.last());
        if b.last().app_id == id {
            assert(with_id(a, id) + with_id(b.drop_last(), id).push(b.last()) =~= (with_id(a, id)
                + with_id(b.drop_last(), id)).push(b.last()));
        }
    }
}

proof fn lemma_with_id_none(s: Seq<InstalledAppView>, id: Seq<char>)
    requires
        forall|k: int| 0 <= k < s.len() ==> #[trigger] s[k].app_id != id,
    ensures
        with_id(s, id) == Seq::<InstalledAppView>::empty(),
    decreases s.len(),
{
    if s.len() > 0 {
        assert forall|k: int| 0 <= k < s.drop_last().len() implies #[trigger] s.drop_last()[k].app_id
            != id by {
            assert(s.drop_last()[k] == s[k]);
        }
        lemma_with_id_none(s.drop_last(), id);
    }
}

/// Inserting `x` where it goes among sorted records puts it after the records
/// with the same id.
proof fn lemma_insert_sorted_with_id(s: Seq<InstalledAppView>, x: InstalledAppView, id: Seq<char>)
    requires
        is_sorted_by_id(s),
    ensures
        with_id(insert_sorted(s, x), id) == if x.app_id == id {
            with_id(s, id).push(x)
        } else {
            with_id(s, id)
        },
{
    lemma_insert_pos_bound(s, x);
    lemma_insert_pos_in_sorted(s, x);
    let p = insert_pos(s, x) as int;
    let t = insert_sorted(s, x);
    assert(t =~= s.take(p) + (seq![x] + s.skip(p)));
    assert(s =~= s.take(p) + s.skip(p));
    lemma_with_id_append(s.take(p), seq![x] + s.skip(p), id);
    lemma_with_id_append(seq![x], s.skip(p), id);
    lemma_with_id_append(s.take(p), s.skip(p), id);
    assert(seq![x].drop_last() =~= Seq::<InstalledAppView>::empty());
    assert(seq![x].last() == x);
    assert(with_id(Seq::<InstalledAppView>::empty(), id) == Seq::<InstalledAppView>::empty());
    assert(Seq::<InstalledAppView>::empty().push(x) =~= seq![x]);
    if x.app_id == id {
        assert forall|k: int| 0 <= k < s.skip(p).len() implies #[trigger] s.skip(p)[k].app_id != id by {
            assert(s.skip(p)[k] == s[p + k]);
            assert(id_lt(x.app_id, s[p + k].app_id));
            lemma_id_lt_irreflexive(x.app_id);
        }
        lemma_with_id_none(s.skip(p), id);
        assert(with_id(seq![x], id) =~= seq![x]);
        assert(with_id(s.take(p), id) + (seq![x] + Seq::<InstalledAppView>::empty()) =~= with_id(
            s.take(p),
            id,
        ).push(x));
        assert(with_id(s.take(p), id) + Seq::<InstalledAppView>::empty() =~= with_id(
            s.take(p),
            id,
        ));
    } else {
        assert(with_id(seq![x], id) =~= Seq::<InstalledAppView>::empty());
        assert(Seq::<InstalledAppView>::empty() + with_id(s.skip(p), id) =~= with_id(
            s.skip(p),
            id,
        ));
    }
}

/// Sorting by id is stable: the records that share an id come out in the
/// order in which they went in.
pub proof fn lemma_sorted_by_id_stable(s: Seq<InstalledAppView>, id: Seq<char>)
    ensures
        with_id(sorted_by_id(s), id) == with_id(s, id),
    decreases s.len(),
{
    if s.len() > 0 {
        lemma_sorted_by_id_stable(s.drop_last(), id);
        lemma_sorted_by_id_sorted(s.drop_last());
        lemma_insert_sorted_with_id(sorted_by_id(s.drop_last()), s.last(), id);
    }
}

proof fn lemma_insert_multiset(s: Seq<InstalledAppView>, i: int, x: InstalledAppView)
    requires
        0 <= i <= s.len(),
    ensures
        s.insert(i, x).to_multiset() =~= s.to_multiset().insert(x),
{
    assert(s.insert(i, x) =~= s.take(i) + (seq![x] + s.skip(i)));
    assert(s =~= s.take(i) + s.skip(i));
    lemma_multiset_commutative(s.take(i), seq![x] + s.skip(i));
    lemma_multiset_commutative(seq![x], s.skip(i));
    lemma_multiset_commutative(s.take(i), s.skip(i));
    assert(seq![x].to_multiset() =~= Seq::<InstalledAppView>::empty().push(x).to_multiset());
}

/// Sorting by id keeps every record, as many times as it occurs.
pub proof fn lemma_sorted_by_id_permutes(s: Seq<InstalledAppView>)
    ensures
        sorted_by_id(s).to_multiset() =~= s.to_multiset(),
        sorted_by_id(s).len() == s.len(),
    decreases s.len(),
{
    if s.len() > 0 {
        lemma_sorted_by_id_permutes(s.drop_last());
        let t = sorted_by_id(s.drop_last());
        lemma_insert_pos_bound(t, s.last());
        lemma_insert_multiset(t, insert_pos(t, s.last()) as int, s.last());
        assert(s =~= s.drop_last().push(s.last()));
    }
}

/// `records` commutes with inserting at an index.
proof fn lemma_records_insert(v: Seq<InstalledApp>, i: int, x: InstalledApp)
    requires
        0 <= i <= v.len(),
    ensures
        records(v.insert(i, x)) =~= records(v).insert(i, x@),
{
}

/// Sorts `apps` by id, keeping records with equal ids in their order.
pub fn sort_by_id(apps: Vec<InstalledApp>) -> (r: Vec<InstalledApp>)
    ensures
        records(r@) == sorted_by_id(records(apps@)),
{
    let ghost orig = records(apps@);
    let n = apps.len();
    let mut rest = apps;
    let mut out: Vec<InstalledApp> = Vec::new();
    let mut i: usize = 0;
    assert(orig.take(0) =~= Seq::<InstalledAppView>::empty());
    assert(records(out@) =~= Seq::<InstalledAppView>::empty());
    assert(records(rest@) =~= orig.skip(0));
    while i < n
        invariant
            n == orig.len(),
            i <= n,
            records(rest@) == orig.skip(i as int),
            rest@.len() == n - i,
            records(out@) == sorted_by_id(orig.take(i as int)),
        decreases n - i,
    {
        let ghost before = rest@;
        let x = rest.remove(0);
        assert(records(before)[0] == x@);
        assert(orig.skip(i as int)[0] == orig[i as int]);
        assert(records(rest@) =~= records(before).drop_first());
        assert(orig.skip(i as int).drop_first() =~= orig.skip(i + 1));
        assert(x@ == orig[i as int]);
        let ghost sorted = records(out@);
        let mut k: usize = 0;
        assert(sorted.skip(0) =~= sorted);
        while k < out.len() && !id_less(x.app_id.as_str(), out[k].app_id.as_str())
            invariant
                sorted == records(out@),
                k <= out@.len(),
                insert_pos(sorted, x@) == k + insert_pos(sorted.skip(k as int), x@),
            decreases out@.len() - k,
        {
            assert(sorted.skip(k as int).drop_first() =~= sorted.skip(k + 1));
            k = k + 1;
        }
        assert(insert_pos(sorted, x@) == k);
        proof {
            lemma_records_insert(out@, k as int, x);
        }
        out.insert(k, x);
        assert(orig.take(i + 1).drop_last() =~= orig.take(i as int));
        i = i + 1;
    }
    assert(orig.take(n as int) =~= orig);
    out
}

// ---------------------------------------------------------------------------
// Finding a record by id.

/// The index of the first record of `s` with id `id`, or `s.len()` when
/// there is none.
pub open spec fn find_id(s: Seq<InstalledAppView>, id: Seq<char>) -> nat
    decreases s.len(),
{
    if s.len() == 0 {
        0
    } else if s[0].app_id == id {
        0
    } else {
        1 + find_id(s.drop_first(), id)
    }
}

/// Whether some record of `s` has id `id`.
pub open spec fn has_id(s: Seq<InstalledAppView>, id: Seq<char>) -> bool {
    find_id(s, id) < s.len()
}

/// No two records of `s` have the same id.
pub open spec fn ids_unique(s: Seq<InstalledAppView>) -> bool {
    forall|i: int, j: int| 0 <= i < s.len() && 0 <= j < s.len() && i != j ==> s[i].app_id != s[j].app_id
}

/// `find_id` is the first index with the id, or the length when none has it.
pub proof fn lemma_find_id(s: Seq<InstalledAppView>, id: Seq<char>)
    ensures
        find_id(s, id) <= s.len(),
        forall|k: int| 0 <= k < find_id(s, id) ==> #[trigger] s[k].app_id != id,
        has_id(s, id) ==> s[find_id(s, id) as int].app_id == id,
        has_id(s, id) <==> exists|k: int| 0 <= k < s.len() && #[trigger] s[k].app_id == id,
    decreases s.len(),
{
    if s.len() > 0 && s[0].app_id != id {
        lemma_find_id(s.drop_first(), id);
        assert forall|k: int| 0 <= k < find_id(s, id) implies #[trigger] s[k].app_id != id by {
            if k > 0 {
                assert(s[k] == s.drop_first()[k - 1]);
            }
        }
        if exists|k: int| 0 <= k < s.len() && #[trigger] s[k].app_id == id {
            let k = choose|k: int| 0 <= k < s.len() && #[trigger] s[k].app_id == id;
            assert(s.drop_first()[k - 1].app_id == id);
        }
    }
}

/// An index with the id and none before it is where `find_id` points.
pub proof fn lemma_find_id_at(s: Seq<InstalledAppView>, id: Seq<char>, p: int)
    requires
        0 <= p < s.len(),
        s[p].app_id == id,
        forall|k: int| 0 <= k < p ==> #[trigger] s[k].app_id != id,
    ensures
        find_id(s, id) == p,
{
    lemma_find_id(s, id);
    if find_id(s, id) < p {
        assert(s[find_id(s, id) as int].app_id == id);
    }
}

/// The index of the first of `apps` with id `id`, if any.
pub fn position_of(apps: &Vec<InstalledApp>, id: &str) -> (r: Option<usize>)
    ensures
        match r {
            Some(i) => i == find_id(records(apps@), id@) && i < apps@.len(),
            None => !has_id(records(apps@), id@),
        },
{
    let ghost s = records(apps@);
    let mut k: usize = 0;
    assert(s.skip(0) =~= s);
    while k < apps.len()
        invariant
            s == records(apps@),
            k <= apps@.len(),
            find_id(s, id@) == k + find_id(s.skip(k as int), id@),
        decreases apps@.len() - k,
    {
        assert(s.skip(k as int)[0] == s[k as int]);
        if str_equal(apps[k].app_id.as_str(), id) {
            return Some(k);
        }
        assert(s.skip(k as int).drop_first() =~= s.skip(k + 1));
        k = k + 1;
    }
    None
}

// ---------------------------------------------------------------------------
// Recording an installation.

/// `s` after recording `r`: the first record with `r`'s id is replaced by
/// `r`; when there is none, `r` is added and the records are sorted by id.
pub open spec fn upserted(s: Seq<InstalledAppView>, r: InstalledAppView) -> Seq<InstalledAppView> {
    if has_id(s, r.app_id) {
        s.update(find_id(s, r.app_id) as int, r)
    } else {
        sorted_by_id(s.push(r))
    }
}

/// Records `record` in `state`: replaces the first record with the same id,
/// or adds it and sorts the records by id.
pub fn upsert_record(state: &mut InstalledState, record: InstalledApp)
    ensures
        final(state)@ == upserted(old(state)@, record@),
{
    match position_of(&state.apps, record.app_id.as_str()) {
        Some(i) => {
            let ghost rv = record@;
            state.apps.set(i, record);
            assert(state@ =~= old(state)@.update(i as int, rv));
        },
        None => {
            let mut apps: Vec<InstalledApp> = Vec::new();
            std::mem::swap(&mut apps, &mut state.apps);
            let ghost rv = record@;
            apps.push(record);
            assert(records(apps@) =~= old(state)@.push(rv));
            state.apps = sort_by_id(apps);
        },
    }
}

/// The record of app `app_id` installed from `m` into `installed_file` at
/// Unix time `at`.
pub open spec fn record_of(
    app_id: Seq<char>,
    m: AppManifest,
    installed_file: Seq<char>,
    at: u64,
) -> InstalledAppView {
    InstalledAppView {
        app_id,
        name: m.name@,
        repo: m.repo@,
        description: m.description@,
        download: m.download@,
        installed_file,
        installed_at_unix: at,
    }
}

/// Whether `new` is `old` after recording that `app_id` was installed from
/// `m` into `out_dir` at Unix time `at`: the record's file is `out_dir`
/// joined with the file name of the download URL.
pub open spec fn installed_as(
    old: Seq<InstalledAppView>,
    new: Seq<InstalledAppView>,
    app_id: Seq<char>,
    m: AppManifest,
    out_dir: Seq<char>,
    at: u64,
) -> bool {
    exists|file: Seq<char>|
        {
            &&& new == upserted(old, #[trigger] record_of(app_id, m, file, at))
            &&& is_join_of(out_dir, url_file_name(m.download@), file)
        }
}

/// After an installation is recorded, the state holds a record with the
/// app's id whose name, repo, description and download are the manifest's
/// fields of the same names, whose time is the given one and whose file is
/// `out_dir` joined with the file name of the download URL; it is the record
/// that looking up the id finds. Every record of another app stays and none
/// is added: the state grows by one record only when the app was new, and
/// records kept in id order with distinct ids stay so.
pub proof fn lemma_installation_record(
    old: Seq<InstalledAppView>,
    new: Seq<InstalledAppView>,
    app_id: Seq<char>,
    m: AppManifest,
    out_dir: Seq<char>,
    at: u64,
)
    requires
        installed_as(old, new, app_id, m, out_dir, at),
    ensures
        has_id(new, app_id),
        ({
            let r = new[find_id(new, app_id) as int];
            &&& r.app_id == app_id
            &&& r.name == m.name@
            &&& r.repo == m.repo@
            &&& r.description == m.description@
            &&& r.download == m.download@
            &&& r.installed_at_unix == at
            &&& is_join_of(out_dir, url_file_name(m.download@), r.installed_file)
        }),
        forall|x: InstalledAppView|
            x.app_id != app_id ==> (new.contains(x) <==> old.contains(x)),
        new.len() == old.len() + (if has_id(old, app_id) {
            0int
        } else {
            1int
        }),
        is_sorted_by_id(old) ==> is_sorted_by_id(new),
        ids_unique(old) ==> ids_unique(new),
{
    let file = choose|file: Seq<char>|
        {
            &&& new == upserted(old, #[trigger] record_of(app_id, m, file, at))
            &&& is_join_of(out_dir, url_file_name(m.download@), file)
        };
    let r = record_of(app_id, m, file, at);
    lemma_upsert_then_find(old, r);
    assert forall|x: InstalledAppView|
        x.app_id != app_id implies (new.contains(x) <==> old.contains(x)) by {
        lemma_upsert_keeps_others(old, r, x);
    }
    lemma_upsert_len(old, r);
    if is_sorted_by_id(old) {
        lemma_upsert_keeps_sorted(old, r);
    }
    if ids_unique(old) {
        lemma_upsert_keeps_ids_unique(old, r);
    }
}

/// Records in `state` that `app_id` was installed from `manifest` into
/// `out_dir` at Unix time `now`. Fails, leaving `state` as it was, when the
/// download URL names no file.
pub fn record_installation(
    state: &mut InstalledState,
    app_id: &str,
    manifest: &AppManifest,
    out_dir: &str,
    now: u64,
) -> (r: Result<(), String>)
    ensures
        r is Ok <==> url_file_name(manifest.download@).len() > 0,
        r matches Err(e) ==> (e@ == "download URL has no file name"@ && final(state)@ == old(
            state,
        )@),
        r is Ok ==> installed_as(old(state)@, final(state)@, app_id@, *manifest, out_dir@, now),
{
    let file_name = match file_name_from_download_url(manifest.download.as_str()) {
        Ok(f) => f,
        Err(e) => return Err(e),
    };
    let installed_path = join_path(out_dir, file_name.as_str());
    let record = InstalledApp {
        app_id: app_id.to_owned(),
        name: manifest.name.clone(),
        repo: manifest.repo.clone(),
        description: manifest.description.clone(),
        download: manifest.download.clone(),
        installed_file: installed_path,
        installed_at_unix: now,
    };
    let ghost file = record.installed_file@;
    assert(record@ == record_of(app_id@, *manifest, file, now));
    upsert_record(state, record);
    assert(is_join_of(out_dir@, url_file_name(manifest.download@), file));
    Ok(())
}

/// Records in `state` that `app_id` was installed from `manifest` into
/// `out_dir`, at the current time. Fails, leaving `state` as it was, when the
/// download URL names no file or the clock cannot be read.
pub fn upsert_installed(
    state: &mut InstalledState,
    app_id: &str,
    manifest: &AppManifest,
    out_dir: &str,
) -> (r: Result<(), String>)
    ensures
        r is Err ==> final(state)@ == old(state)@,
        url_file_name(manifest.download@).len() == 0 ==> (r matches Err(e) && e@
            == "download URL has no file name"@),
        url_file_name(manifest.download@).len() > 0 ==> (r matches Err(e)
            ==> "System time error: "@.is_prefix_of(e@)),
        r is Ok ==> exists|at: u64|
            installed_as(old(state)@, final(state)@, app_id@, *manifest, out_dir@, at),
{
    match file_name_from_download_url(manifest.download.as_str()) {
        Ok(_) => {},
        Err(e) => return Err(e),
    }
    let now = match now_unix_seconds() {
        Ok(t) => t,
        Err(e) => return Err(e),
    };
    record_installation(state, app_id, manifest, out_dir, now)
}

// ---------------------------------------------------------------------------
// Laws of recording and removing.

/// After recording `r`, looking up `r`'s id finds `r`.
pub proof fn lemma_upsert_then_find(s: Seq<InstalledAppView>, r: InstalledAppView)
    ensures
        has_id(upserted(s, r), r.app_id),
        upserted(s, r)[find_id(upserted(s, r), r.app_id) as int] == r,
{
    lemma_find_id(s, r.app_id);
    let u = upserted(s, r);
    if has_id(s, r.app_id) {
        let p = find_id(s, r.app_id) as int;
        assert forall|k: int| 0 <= k < p implies #[trigger] u[k].app_id != r.app_id by {
            assert(u[k] == s[k]);
        }
        lemma_find_id_at(u, r.app_id, p);
    } else {
        let t = s.push(r);
        lemma_sorted_by_id_permutes(t);
        assert(t[s.len() as int] == r);
        assert(t.to_multiset().count(r) > 0);
        assert(u.contains(r));
        let k = choose|k: int| 0 <= k < u.len() && u[k] == r;
        lemma_find_id(u, r.app_id);
        assert(u[k].app_id == r.app_id);
        let f = find_id(u, r.app_id) as int;
        assert(u.to_multiset().count(u[f]) > 0);
        assert(t.contains(u[f]));
        let j = choose|j: int| 0 <= j < t.len() && t[j] == u[f];
        if j < s.len() {
            assert(s[j].app_id == r.app_id);
        }
    }
}

/// Recording `r` keeps every record with another id, and adds none.
pub proof fn lemma_upsert_keeps_others(
    s: Seq<InstalledAppView>,
    r: InstalledAppView,
    x: InstalledAppView,
)
    requires
        x.app_id != r.app_id,
    ensures
        upserted(s, r).contains(x) <==> s.contains(x),
{
    lemma_find_id(s, r.app_id);
    let u = upserted(s, r);
    if has_id(s, r.app_id) {
        let p = find_id(s, r.app_id) as int;
        if s.contains(x) {
            let k = choose|k: int| 0 <= k < s.len() && s[k] == x;
            assert(k != p);
            assert(u[k] == x);
        }
        if u.contains(x) {
            let k = choose|k: int| 0 <= k < u.len() && u[k] == x;
            assert(s[k] == x);
        }
    } else {
        let t = s.push(r);
        lemma_sorted_by_id_permutes(t);
        assert(u.contains(x) <==> t.to_multiset().count(x) > 0);
        if t.contains(x) {
            let k = choose|k: int| 0 <= k < t.len() && t[k] == x;
            assert(k < s.len());
            assert(s[k] == x);
        }
        if s.contains(x) {
            let k = choose|k: int| 0 <= k < s.len() && s[k] == x;
            assert(t[k] == x);
        }
    }
}

/// Recording adds one record when the id is new, and none otherwise.
pub proof fn lemma_upsert_len(s: Seq<InstalledAppView>, r: InstalledAppView)
    ensures
        upserted(s, r).len() == s.len() + (if has_id(s, r.app_id) {
            0int
        } else {
            1int
        }),
{
    lemma_sorted_by_id_permutes(s.push(r));
}

/// Records kept in id order stay in id order when one is recorded.
pub proof fn lemma_upsert_keeps_sorted(s: Seq<InstalledAppView>, r: InstalledAppView)
    requires
        is_sorted_by_id(s),
    ensures
        is_sorted_by_id(upserted(s, r)),
{
    lemma_find_id(s, r.app_id);
    if has_id(s, r.app_id) {
        let p = find_id(s, r.app_id) as int;
        let u = upserted(s, r);
        assert forall|i: int, j: int| 0 <= i < j < u.len() implies !id_lt(
            u[j].app_id,
            u[i].app_id,
        ) by {
            assert(!id_lt(s[j].app_id, s[i].app_id));
        }
    } else {
        lemma_sorted_by_id_sorted(s.push(r));
    }
}

/// Records with distinct ids keep distinct ids when one is recorded.
pub proof fn lemma_upsert_keeps_ids_unique(s: Seq<InstalledAppView>, r: InstalledAppView)
    requires
        ids_unique(s),
    ensures
        ids_unique(upserted(s, r)),
{
    lemma_find_id(s, r.app_id);
    let u = upserted(s, r);
    if has_id(s, r.app_id) {
        let p = find_id(s, r.app_id) as int;
        assert forall|i: int, j: int|
            0 <= i < u.len() && 0 <= j < u.len() && i != j implies u[i].app_id
            != u[j].app_id by {
            if i == p {
                assert(s[p].app_id == r.app_id);
                assert(s[j].app_id != s[p].app_id);
            } else if j == p {
                assert(s[i].app_id != s[p].app_id);
            }
        }
    } else {
        let t = s.push(r);
        assert(ids_unique(t)) by {
            assert forall|i: int, j: int|
                0 <= i < t.len() && 0 <= j < t.len() && i != j implies t[i].app_id
                != t[j].app_id by {
                if i == s.len() {
                    assert(s[j].app_id != r.app_id);
                } else if j == s.len() {
                    assert(s[i].app_id != r.app_id);
                }
            }
        }
        lemma_sorted_by_id_unique(t);
    }
}

/// Sorting by id keeps ids distinct.
proof fn lemma_sorted_by_id_unique(t: Seq<InstalledAppView>)
    requires
        ids_unique(t),
    ensures
        ids_unique(sorted_by_id(t)),
{
    lemma_sorted_by_id_permutes(t);
    let u = sorted_by_id(t);
    assert(t.no_duplicates());
    t.lemma_multiset_has_no_duplicates();
    u.lemma_multiset_has_no_duplicates_conv();
    assert forall|i: int, j: int|
        0 <= i < u.len() && 0 <= j < u.len() && i != j implies u[i].app_id != u[j].app_id by {
        if u[i].app_id == u[j].app_id {
            assert(u.contains(u[i]));
            assert(u.contains(u[j]));
            assert(u.to_multiset().count(u[i]) > 0);
            assert(u.to_multiset().count(u[j]) > 0);
            assert(t.to_multiset().count(u[i]) > 0);
            assert(t.to_multiset().count(u[j]) > 0);
            assert(t.contains(u[i]));
            assert(t.contains(u[j]));
            let a = choose|a: int| 0 <= a < t.len() && t[a] == u[i];
            let b = choose|b: int| 0 <= b < t.len() && t[b] == u[j];
            assert(a == b);
        }
    }
}

/// Records already in id order are left as they are by sorting; in
/// particular, sorting twice is sorting once.
pub proof fn lemma_sorted_by_id_of_sorted(s: Seq<InstalledAppView>)
    requires
        is_sorted_by_id(s),
    ensures
        sorted_by_id(s) == s,
    decreases s.len(),
{
    if s.len() > 0 {
        let d = s.drop_last();
        lemma_sorted_by_id_of_sorted(d);
        lemma_insert_pos_bound(d, s.last());
        if insert_pos(d, s.last()) < d.len() {
            let p = insert_pos(d, s.last()) as int;
            assert(!id_lt(s[s.len() - 1].app_id, s[p].app_id));
        }
        assert(d.insert(d.len() as int, s.last()) =~= s);
    }
}

/// Removing the record of an app that was just recorded, into records in id
/// order that did not have its id, gives back the records as they were.
pub proof fn lemma_remove_undoes_upsert(s: Seq<InstalledAppView>, r: InstalledAppView)
    requires
        is_sorted_by_id(s),
        !has_id(s, r.app_id),
    ensures
        has_id(upserted(s, r), r.app_id),
        upserted(s, r).remove(find_id(upserted(s, r), r.app_id) as int) == s,
{
    lemma_find_id(s, r.app_id);
    lemma_sorted_by_id_of_sorted(s);
    let t = s.push(r);
    assert(t.drop_last() =~= s);
    let p = insert_pos(s, r) as int;
    lemma_insert_pos_bound(s, r);
    let u = upserted(s, r);
    assert(u == s.insert(p, r));
    assert forall|k: int| 0 <= k < p implies #[trigger] u[k].app_id != r.app_id by {
        assert(u[k] == s[k]);
    }
    lemma_find_id_at(u, r.app_id, p);
    assert(u.remove(p) =~= s);
}

/// The ids of the records of `s`, in order.
pub open spec fn ids_of(s: Seq<InstalledAppView>) -> Seq<Seq<char>> {
    s.map_values(|a: InstalledAppView| a.app_id)
}

/// Some record of `s` has id `id` exactly when `id` is among the ids of `s`.
pub proof fn lemma_has_id_ids_of(s: Seq<InstalledAppView>, id: Seq<char>)
    ensures
        has_id(s, id) <==> ids_of(s).contains(id),
{
    lemma_find_id(s, id);
    if ids_of(s).contains(id) {
        let k = choose|k: int| 0 <= k < ids_of(s).len() && ids_of(s)[k] == id;
        assert(s[k].app_id == id);
    }
    if has_id(s, id) {
        assert(ids_of(s)[find_id(s, id) as int] == id);
    }
}

/// Recording an app that is already installed replaces its first record in
/// place: the ids stay as they were, in order, and every record with
/// another id stays where it was, unchanged.
pub proof fn lemma_upsert_in_place(s: Seq<InstalledAppView>, r: InstalledAppView)
    requires
        has_id(s, r.app_id),
    ensures
        upserted(s, r).len() == s.len(),
        ids_of(upserted(s, r)) == ids_of(s),
        upserted(s, r)[find_id(s, r.app_id) as int] == r,
        forall|k: int|
            0 <= k < s.len() && s[k].app_id != r.app_id ==> #[trigger] upserted(s, r)[k] == s[k],
{
    lemma_find_id(s, r.app_id);
    assert(ids_of(upserted(s, r)) =~= ids_of(s));
}

// ---------------------------------------------------------------------------
// Removing an installation.

/// Removes the record of `app` (taken as an app id after normalizing) and
/// returns it; an error names the app when it is not installed.
pub fn remove_app(state: &mut InstalledState, app: &str) -> (r: Result<InstalledApp, String>)
    ensures
        ({
            let id = normalized_app_id(app@);
            &&& r is Ok <==> has_id(old(state)@, id)
            &&& r matches Ok(a) ==> (a@ == old(state)@[find_id(old(state)@, id) as int]
                && final(state)@ == old(state)@.remove(find_id(old(state)@, id) as int))
            &&& r matches Err(e) ==> (e@ == id + " is not installed"@ && final(state)@ == old(
                state,
            )@)
        }),
{
    let app_id = normalize_app_id(app);
    match position_of(&state.apps, app_id.as_str()) {
        Some(i) => {
            let removed = state.apps.remove(i);
            assert(state@ =~= old(state)@.remove(i as int));
            Ok(removed)
        },
        None => {
            let mut msg = app_id;
            msg.append(" is not installed");
            Err(msg)
        },
    }
}

// ---------------------------------------------------------------------------
// Listing, checking and choosing installed apps.

/// The line that lists one installed app.
pub open spec fn listing_line(a: InstalledAppView) -> Seq<char> {
    "- "@ + a.app_id + ": "@ + a.name + " ("@ + a.installed_file + ")"@
}

/// The lines that list the installed apps.
pub open spec fn listing(s: Seq<InstalledAppView>) -> Seq<Seq<char>> {
    if s.len() == 0 {
        seq!["No apps installed yet."@]
    } else {
        seq!["Installed app(s): "@ + decimal(s.len())] + s.map_values(
            |a: InstalledAppView| listing_line(a),
        )
    }
}

/// The lines that list the apps of `state`: a count, then one line per app
/// with its id, name and installer file; or a note that there is none.
pub fn list_installed_apps(state: &InstalledState) -> (lines: Vec<String>)
    ensures
        string_views(lines@) == listing(state@),
{
    let mut lines: Vec<String> = Vec::new();
    let n = state.apps.len();
    if n == 0 {
        push_line(&mut lines, "No apps installed yet.".to_owned());
        assert(string_views(lines@) =~= listing(state@));
        return lines;
    }
    let mut head = "Installed app(s): ".to_owned();
    head.append(decimal_string(n as u64).as_str());
    push_line(&mut lines, head);
    let ghost s = state@;
    let mut i: usize = 0;
    while i < n
        invariant
            n == state.apps@.len() == s.len(),
            s == state@,
            s.len() > 0,
            i <= n,
            string_views(lines@) == seq!["Installed app(s): "@ + decimal(s.len())] + s.take(
                i as int,
            ).map_values(|a: InstalledAppView| listing_line(a)),
        decreases n - i,
    {
        let a = &state.apps[i];
        let mut line = "- ".to_owned();
        line.append(a.app_id.as_str());
        line.append(": ");
        line.append(a.name.as_str());
        line.append(" (");
        line.append(a.installed_file.as_str());
        line.append(")");
        assert(s[i as int] == a@);
        push_line(&mut lines, line);
        assert(s.take(i + 1).map_values(|a: InstalledAppView| listing_line(a)) =~= s.take(
            i as int,
        ).map_values(|a: InstalledAppView| listing_line(a)).push(listing_line(s[i as int])));
        i = i + 1;
    }
    assert(s.take(n as int) =~= s);
    lines
}

/// Whether `id` names the package manager itself, ignoring ASCII case.
pub open spec fn is_self_id(id: Seq<char>) -> bool {
    ascii_lower(id) == ascii_lower("cpkg"@)
}

/// Once an app is recorded, the listing of installed apps shows it.
pub proof fn lemma_recorded_app_is_listed(s: Seq<InstalledAppView>, r: InstalledAppView)
    ensures
        listing(upserted(s, r)).contains(listing_line(r)),
{
    lemma_upsert_then_find(s, r);
    let u = upserted(s, r);
    let f = find_id(u, r.app_id) as int;
    assert(listing(u)[f + 1] == listing_line(r));
}

/// The ids of the apps of `s` that an update of all apps goes through, in
/// order: all but the package manager itself.
pub open spec fn ids_to_update(s: Seq<InstalledAppView>) -> Seq<Seq<char>>
    decreases s.len(),
{
    if s.len() == 0 {
        seq![]
    } else if is_self_id(s.last().app_id) {
        ids_to_update(s.drop_last())
    } else {
        ids_to_update(s.drop_last()).push(s.last().app_id)
    }
}

/// An update of all apps never goes through the package manager itself, and
/// goes only through installed apps.
pub proof fn lemma_ids_to_update(s: Seq<InstalledAppView>)
    ensures
        forall|k: int| 0 <= k < ids_to_update(s).len() ==> !is_self_id(#[trigger] ids_to_update(s)[k]),
        forall|k: int|
            0 <= k < ids_to_update(s).len() ==> exists|j: int|
                0 <= j < s.len() && s[j].app_id == #[trigger] ids_to_update(s)[k],
    decreases s.len(),
{
    if s.len() > 0 {
        lemma_ids_to_update(s.drop_last());
        let d = s.drop_last();
        assert forall|k: int| 0 <= k < ids_to_update(s).len() implies exists|j: int|
            0 <= j < s.len() && s[j].app_id == #[trigger] ids_to_update(s)[k] by {
            if k < ids_to_update(d).len() {
                assert(ids_to_update(s)[k] == ids_to_update(d)[k]);
                let j = choose|j: int| 0 <= j < d.len() && d[j].app_id == ids_to_update(d)[k];
                assert(s[j] == d[j]);
            } else {
                assert(s[s.len() - 1].app_id == ids_to_update(s)[k]);
            }
        }
    }
}

/// The ids of the installed apps that an update of all apps goes through:
/// all but the package manager itself, in the order of `state`.
pub fn apps_to_update(state: &InstalledState) -> (ids: Vec<String>)
    ensures
        string_views(ids@) == ids_to_update(state@),
{
    let mut ids: Vec<String> = Vec::new();
    let ghost s = state@;
    let mut i: usize = 0;
    while i < state.apps.len()
        invariant
            s == state@,
            s.len() == state.apps@.len(),
            i <= s.len(),
            string_views(ids@) == ids_to_update(s.take(i as int)),
        decreases s.len() - i,
    {
        assert(s.take(i + 1).drop_last() =~= s.take(i as int));
        assert(s[i as int] == state.apps[i as int]@);
        if !eq_ignore_ascii_case(state.apps[i].app_id.as_str(), "cpkg") {
            push_line(&mut ids, state.apps[i].app_id.clone());
        }
        i = i + 1;
    }
    assert(s.take(s.len() as int) =~= s);
    ids
}

/// The id of `app` when it is installed; an error that names it otherwise.
pub fn installed_app_id(state: &InstalledState, app: &str) -> (r: Result<String, String>)
    ensures
        ({
            let id = normalized_app_id(app@);
            &&& r is Ok <==> has_id(state@, id)
            &&& r matches Ok(i) ==> i@ == id
            &&& r matches Err(e) ==> e@ == id + " is not installed"@
        }),
{
    let app_id = normalize_app_id(app);
    match position_of(&state.apps, app_id.as_str()) {
        Some(_) => Ok(app_id),
        None => {
            let mut msg = app_id;
            msg.append(" is not installed");
            Err(msg)
        },
    }
}

} // verus!
