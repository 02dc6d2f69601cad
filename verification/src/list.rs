//! The derived, filterable view of the registry: fuzzy matching against
//! the query, score ranking, running-first ordering, and the cap on
//! non-running entries.

use vstd::prelude::*;

use crate::events::{App, AppView};

verus! {

/// The score that the fuzzy matcher assigns to `name` against `query`, or
/// `None` when the name does not match. The score is a function of the two
/// character sequences alone.
pub uninterp spec fn match_score(name: Seq<char>, query: Seq<char>) -> Option<int>;

/// Relies on fuzzy_matcher's `SkimMatcherV2::fuzzy_match`, with the default
/// configuration: a deterministic score computed from the two strings alone.
#[verifier::external_body]
fn fuzzy_match_score(name: &str, query: &str) -> (r: Option<i64>)
    ensures
        match r {
            Some(s) => match_score(name@, query@) == Some(s as int),
            None => match_score(name@, query@) is None,
        },
{
    let matcher = fuzzy_matcher::skim::SkimMatcherV2::default();
    fuzzy_matcher::FuzzyMatcher::fuzzy_match(&matcher, name, query)
}

/// The sort key the ranking uses: the fuzzy score, or 0 for a non-match.
pub open spec fn score_of(a: AppView, q: Seq<char>) -> int {
    match match_score(a.name, q) {
        Some(v) => v,
        None => 0,
    }
}

/// `a` may stay in front of a newly inserted `b` in the descending-score
/// order (ties keep the earlier entry in front).
pub open spec fn score_ge(a: AppView, b: AppView, q: Seq<char>) -> bool {
    score_of(a, q) >= score_of(b, q)
}

/// The running-first rank: running entries first, then non-running ones
/// under the standard system applications directory, then the rest.
pub open spec fn rank_of(a: AppView) -> int {
    if a.pid != 0 {
        0
    } else if in_applications_dir(a.path) {
        1
    } else {
        2
    }
}

/// Whether a path lies under the standard system applications directory.
pub open spec fn in_applications_dir(path: Seq<char>) -> bool {
    let dir = "/Applications/"@;
    path.len() >= dir.len() && path.subrange(0, dir.len() as int) == dir
}

/// Only the running entries of `s`, in order.
pub open spec fn keep_running(s: Seq<AppView>) -> Seq<AppView>
    decreases s.len(),
{
    if s.len() == 0 {
        Seq::empty()
    } else if s[0].pid != 0 {
        seq![s[0]] + keep_running(s.drop_first())
    } else {
        keep_running(s.drop_first())
    }
}

/// Only the entries of `s` whose name matches `q`, in order.
pub open spec fn matched(s: Seq<AppView>, q: Seq<char>) -> Seq<AppView>
    decreases s.len(),
{
    if s.len() == 0 {
        Seq::empty()
    } else if match_score(s[0].name, q) is Some {
        seq![s[0]] + matched(s.drop_first(), q)
    } else {
        matched(s.drop_first(), q)
    }
}

/// Stable insertion by descending score: `x` goes behind every entry whose
/// score is at least its own.
pub open spec fn insert_desc(x: AppView, s: Seq<AppView>, q: Seq<char>) -> Seq<AppView>
    decreases s.len(),
{
    if s.len() == 0 {
        seq![x]
    } else if score_ge(s[0], x, q) {
        seq![s[0]] + insert_desc(x, s.drop_first(), q)
    } else {
        seq![x] + s
    }
}

/// Stable sort by descending score: entries are inserted left to right, so
/// equal scores keep their relative order.
pub open spec fn sort_desc(s: Seq<AppView>, q: Seq<char>) -> Seq<AppView>
    decreases s.len(),
{
    if s.len() == 0 {
        Seq::empty()
    } else {
        insert_desc(s.last(), sort_desc(s.drop_last(), q), q)
    }
}

/// Stable insertion by ascending rank: `x` goes behind every entry whose
/// rank is at most its own.
pub open spec fn insert_rank(x: AppView, s: Seq<AppView>) -> Seq<AppView>
    decreases s.len(),
{
    if s.len() == 0 {
        seq![x]
    } else if rank_of(s[0]) <= rank_of(x) {
        seq![s[0]] + insert_rank(x, s.drop_first())
    } else {
        seq![x] + s
    }
}

/// Stable sort by ascending rank: running entries come first, and ties
/// keep their relative order.
pub open spec fn sort_rank(s: Seq<AppView>) -> Seq<AppView>
    decreases s.len(),
{
    if s.len() == 0 {
        Seq::empty()
    } else {
        insert_rank(s.last(), sort_rank(s.drop_last()))
    }
}

/// At most `k` non-running entries of `s` are kept, in order; running
/// entries all stay.
pub open spec fn cap_non_running(s: Seq<AppView>, k: nat) -> Seq<AppView>
    decreases s.len(),
{
    if s.len() == 0 {
        Seq::empty()
    } else if s[0].pid != 0 {
        seq![s[0]] + cap_non_running(s.drop_first(), k)
    } else if k > 0 {
        seq![s[0]] + cap_non_running(s.drop_first(), (k - 1) as nat)
    } else {
        cap_non_running(s.drop_first(), k)
    }
}

/// The entry models of a sequence of entries, element for element.
pub open spec fn deep_of(s: Seq<App>) -> Seq<AppView> {
    Seq::new(s.len(), |j: int| s[j]@)
}

/// A `Vec`'s deep view is [`deep_of`] of its sequence.
pub proof fn lemma_deep_view_is(v: &Vec<App>)
    ensures
        v.deep_view() == deep_of(v@),
{
    assert(v.deep_view() =~= deep_of(v@));
}

/// [`deep_of`] commutes with push.
pub proof fn lemma_deep_of_push(s: Seq<App>, x: App)
    ensures
        deep_of(s.push(x)) == deep_of(s).push(x@),
{
    assert(deep_of(s.push(x)) =~= deep_of(s).push(x@));
}

/// [`deep_of`] commutes with insertion.
pub proof fn lemma_deep_of_insert(s: Seq<App>, i: int, x: App)
    requires
        0 <= i <= s.len(),
    ensures
        deep_of(s.insert(i, x)) == deep_of(s).insert(i, x@),
{
    s.insert_ensures(i, x);
    deep_of(s).insert_ensures(i, x@);
    assert forall|j: int| 0 <= j < deep_of(s.insert(i, x)).len() implies deep_of(s.insert(i, x))[j]
        == deep_of(s).insert(i, x@)[j] by {
        if j < i {
            assert(s.insert(i, x)[j] == s[j]);
        } else if j == i {
            assert(s.insert(i, x)[j] == x);
        } else {
            assert(s.insert(i, x)[j] == s[j - 1]);
        }
    }
    assert(deep_of(s.insert(i, x)) =~= deep_of(s).insert(i, x@));
}

/// The full filtered view: with an empty query only the running entries,
/// otherwise the matching entries ranked by descending score; in both
/// cases running entries are then moved in front (stably) and at most 3
/// non-running entries are kept.
pub open spec fn spec_filter(q: Seq<char>, s: Seq<AppView>) -> Seq<AppView> {
    let base = if q.len() == 0 {
        keep_running(s)
    } else {
        sort_desc(matched(s, q), q)
    };
    cap_non_running(sort_rank(base), 3)
}

/// The fuzzy sort key of one entry, as [`score_of`] names it.
fn score_exec(a: &App, query: &str) -> (r: i64)
    ensures
        r as int == score_of(a@, query@),
{
    match fuzzy_match_score(a.name.as_str(), query) {
        Some(v) => v,
        None => 0,
    }
}

/// Whether the entry's path lies under the standard system applications
/// directory.
fn starts_with_applications_dir(path: &String) -> (r: bool)
    ensures
        r == in_applications_dir(path@),
{
    let dir: &str = "/Applications/";
    let dir_len = dir.unicode_len();
    let path_str = path.as_str();
    let path_len = path_str.unicode_len();
    if path_len < dir_len {
        return false;
    }
    let mut i: usize = 0;
    while i < dir_len
        invariant
            0 <= i <= dir_len,
            dir_len == dir@.len(),
            path_len == path@.len(),
            dir_len <= path_len,
            dir@ == "/Applications/"@,
            path@ == path_str@,
            forall|k: int| 0 <= k < i ==> path@[k] == dir@[k],
        decreases dir_len - i,
    {
        if path_str.get_char(i) != dir.get_char(i) {
            assert(path@.subrange(0, dir@.len() as int)[i as int] != dir@[i as int]);
            return false;
        }
        i += 1;
    }
    assert(path@.subrange(0, dir@.len() as int) =~= dir@);
    true
}

/// The running-first rank of one entry, as [`rank_of`] defines it.
fn rank_exec(a: &App) -> (r: u8)
    ensures
        r as int == rank_of(a@),
{
    if a.pid != 0 {
        0
    } else if starts_with_applications_dir(&a.path) {
        1
    } else {
        2
    }
}

/// Keep only the running entries, in order.
fn retain_running(list: &Vec<App>) -> (r: Vec<App>)
    ensures
        r.deep_view() == keep_running(list.deep_view()),
{
    let ghost s = list.deep_view();
    let mut out: Vec<App> = Vec::new();
    let mut i: usize = 0;
    proof {
        lemma_deep_view_is(list);
        lemma_deep_view_is(&out);
        assert(s.skip(0) =~= s);
        assert(out.deep_view() + keep_running(s) =~= keep_running(s));
    }
    while i < list.len()
        invariant
            0 <= i <= list.len(),
            s == list.deep_view(),
            s == deep_of(list@),
            s.len() == list@.len(),
            keep_running(s) == out.deep_view() + keep_running(s.skip(i as int)),
        decreases list.len() - i,
    {
        proof {
            assert(s.skip(i as int).drop_first() =~= s.skip(i as int + 1));
            assert(s.skip(i as int)[0] == s[i as int]);
            assert(s[i as int] == list@[i as int]@);
        }
        let ghost out0 = out@;
        if list[i].pid != 0 {
            out.push(list[i].clone());
            proof {
                lemma_deep_of_push(out0, list@[i as int]);
                lemma_deep_view_is(&out);
                assert(deep_of(out0).push(s[i as int]) + keep_running(s.skip(i as int + 1))
                    =~= deep_of(out0) + (seq![s[i as int]] + keep_running(s.skip(i as int + 1))));
            }
        }
        i += 1;
    }
    proof {
        assert(s.skip(list@.len() as int) =~= Seq::<AppView>::empty());
        assert(out.deep_view() + keep_running(Seq::<AppView>::empty()) =~= out.deep_view());
    }
    out
}

/// Keep only the entries whose name matches the query, in order.
fn retain_matched(list: &Vec<App>, query: &str) -> (r: Vec<App>)
    ensures
        r.deep_view() == matched(list.deep_view(), query@),
{
    let ghost s = list.deep_view();
    let ghost q = query@;
    let mut out: Vec<App> = Vec::new();
    let mut i: usize = 0;
    proof {
        lemma_deep_view_is(list);
        lemma_deep_view_is(&out);
        assert(s.skip(0) =~= s);
        assert(out.deep_view() + matched(s, q) =~= matched(s, q));
    }
    while i < list.len()
        invariant
            0 <= i <= list.len(),
            s == list.deep_view(),
            s == deep_of(list@),
            s.len() == list@.len(),
            q == query@,
            matched(s, q) == out.deep_view() + matched(s.skip(i as int), q),
        decreases list.len() - i,
    {
        proof {
            assert(s.skip(i as int).drop_first() =~= s.skip(i as int + 1));
            assert(s.skip(i as int)[0] == s[i as int]);
            assert(s[i as int] == list@[i as int]@);
        }
        let ghost out0 = out@;
        if fuzzy_match_score(list[i].name.as_str(), query).is_some() {
            out.push(list[i].clone());
            proof {
                lemma_deep_of_push(out0, list@[i as int]);
                lemma_deep_view_is(&out);
                assert(deep_of(out0).push(s[i as int]) + matched(s.skip(i as int + 1), q)
                    =~= deep_of(out0) + (seq![s[i as int]] + matched(s.skip(i as int + 1), q)));
            }
        }
        i += 1;
    }
    proof {
        assert(s.skip(list@.len() as int) =~= Seq::<AppView>::empty());
        assert(out.deep_view() + matched(Seq::<AppView>::empty(), q) =~= out.deep_view());
    }
    out
}

/// Where stable descending-score insertion puts an entry: behind the
/// leading run of entries scoring at least as much.
pub proof fn lemma_insert_desc_at(x: AppView, s: Seq<AppView>, q: Seq<char>, i: int)
    requires
        0 <= i <= s.len(),
        forall|j: int| 0 <= j < i ==> score_ge(s[j], x, q),
        i < s.len() ==> !score_ge(s[i], x, q),
    ensures
        insert_desc(x, s, q) == s.subrange(0, i) + seq![x] + s.subrange(i, s.len() as int),
    decreases i,
{
    if i == 0 {
        if s.len() == 0 {
            assert(insert_desc(x, s, q) =~= s.subrange(0, 0) + seq![x] + s.subrange(0, 0));
        } else {
            assert(insert_desc(x, s, q) =~= s.subrange(0, 0) + seq![x] + s.subrange(
                0,
                s.len() as int,
            ));
        }
    } else {
        let t = s.drop_first();
        assert(forall|j: int| 0 <= j < t.len() ==> t[j] == s[j + 1]);
        lemma_insert_desc_at(x, t, q, i - 1);
        assert(insert_desc(x, s, q) == seq![s[0]] + (t.subrange(0, i - 1) + seq![x] + t.subrange(
            i - 1,
            t.len() as int,
        )));
        assert(seq![s[0]] + (t.subrange(0, i - 1) + seq![x] + t.subrange(i - 1, t.len() as int))
            =~= s.subrange(0, i) + seq![x] + s.subrange(i, s.len() as int));
    }
}

/// Where stable ascending-rank insertion puts an entry.
pub proof fn lemma_insert_rank_at(x: AppView, s: Seq<AppView>, i: int)
    requires
        0 <= i <= s.len(),
        forall|j: int| 0 <= j < i ==> rank_of(s[j]) <= rank_of(x),
        i < s.len() ==> !(rank_of(s[i]) <= rank_of(x)),
    ensures
        insert_rank(x, s) == s.subrange(0, i) + seq![x] + s.subrange(i, s.len() as int),
    decreases i,
{
    if i == 0 {
        if s.len() == 0 {
            assert(insert_rank(x, s) =~= s.subrange(0, 0) + seq![x] + s.subrange(0, 0));
        } else {
            assert(insert_rank(x, s) =~= s.subrange(0, 0) + seq![x] + s.subrange(
                0,
                s.len() as int,
            ));
        }
    } else {
        let t = s.drop_first();
        assert(forall|j: int| 0 <= j < t.len() ==> t[j] == s[j + 1]);
        lemma_insert_rank_at(x, t, i - 1);
        assert(insert_rank(x, s) == seq![s[0]] + (t.subrange(0, i - 1) + seq![x] + t.subrange(
            i - 1,
            t.len() as int,
        )));
        assert(seq![s[0]] + (t.subrange(0, i - 1) + seq![x] + t.subrange(i - 1, t.len() as int))
            =~= s.subrange(0, i) + seq![x] + s.subrange(i, s.len() as int));
    }
}

/// The position where descending-score insertion puts `x` into the (sorted)
/// `out`.
fn insert_pos_by_score(out: &Vec<App>, x: &App, query: &str) -> (i: usize)
    ensures
        i <= out.len(),
        forall|j: int| 0 <= j < i ==> score_ge(out.deep_view()[j], x@, query@),
        i < out.len() ==> !score_ge(out.deep_view()[i as int], x@, query@),
{
    let ghost d = out.deep_view();
    let sx = score_exec(x, query);
    let mut i: usize = 0;
    while i < out.len()
        invariant
            0 <= i <= out.len(),
            d == out.deep_view(),
            d.len() == out@.len(),
            sx as int == score_of(x@, query@),
            forall|j: int| 0 <= j < i ==> score_ge(d[j], x@, query@),
        decreases out.len() - i,
    {
        proof {
            assert(d[i as int] == out@[i as int]@);
        }
        let sy = score_exec(&out[i], query);
        if sy < sx {
            return i;
        }
        i += 1;
    }
    i
}

/// The position where ascending-rank insertion puts `x` into the (sorted)
/// `out`.
fn insert_pos_by_rank(out: &Vec<App>, x: &App) -> (i: usize)
    ensures
        i <= out.len(),
        forall|j: int| 0 <= j < i ==> rank_of(out.deep_view()[j]) <= rank_of(x@),
        i < out.len() ==> !(rank_of(out.deep_view()[i as int]) <= rank_of(x@)),
{
    let ghost d = out.deep_view();
    let rx = rank_exec(x);
    let mut i: usize = 0;
    while i < out.len()
        invariant
            0 <= i <= out.len(),
            d == out.deep_view(),
            d.len() == out@.len(),
            rx as int == rank_of(x@),
            forall|j: int| 0 <= j < i ==> rank_of(d[j]) <= rank_of(x@),
        decreases out.len() - i,
    {
        proof {
            assert(d[i as int] == out@[i as int]@);
        }
        let ry = rank_exec(&out[i]);
        if ry > rx {
            return i;
        }
        i += 1;
    }
    i
}

/// Stable sort by descending fuzzy score.
fn sort_by_score(list: &Vec<App>, query: &str) -> (r: Vec<App>)
    ensures
        r.deep_view() == sort_desc(list.deep_view(), query@),
{
    let ghost s = list.deep_view();
    let ghost q = query@;
    let mut out: Vec<App> = Vec::new();
    let mut k: usize = 0;
    proof {
        lemma_deep_view_is(list);
        lemma_deep_view_is(&out);
        assert(s.take(0) =~= Seq::<AppView>::empty());
    }
    while k < list.len()
        invariant
            0 <= k <= list.len(),
            s == list.deep_view(),
            s == deep_of(list@),
            s.len() == list@.len(),
            q == query@,
            out.deep_view() == sort_desc(s.take(k as int), q),
        decreases list.len() - k,
    {
        let x = list[k].clone();
        let i = insert_pos_by_score(&out, &x, query);
        let ghost out0 = out@;
        let ghost d0 = out.deep_view();
        out.insert(i, x);
        proof {
            lemma_insert_desc_at(s[k as int], d0, q, i as int);
            lemma_deep_of_insert(out0, i as int, x);
            lemma_deep_view_is(&out);
            assert(x@ == s[k as int]);
            assert(d0.insert(i as int, x@) =~= d0.subrange(0, i as int) + seq![x@] + d0.subrange(
                i as int,
                d0.len() as int,
            ));
            assert(s.take(k as int + 1).drop_last() =~= s.take(k as int));
            assert(s.take(k as int + 1).last() == s[k as int]);
        }
        k += 1;
    }
    proof {
        assert(s.take(list@.len() as int) =~= s);
    }
    out
}

/// Stable sort by ascending running-first rank.
fn sort_by_rank(list: &Vec<App>) -> (r: Vec<App>)
    ensures
        r.deep_view() == sort_rank(list.deep_view()),
{
    let ghost s = list.deep_view();
    let mut out: Vec<App> = Vec::new();
    let mut k: usize = 0;
    proof {
        lemma_deep_view_is(list);
        lemma_deep_view_is(&out);
        assert(s.take(0) =~= Seq::<AppView>::empty());
    }
    while k < list.len()
        invariant
            0 <= k <= list.len(),
            s == list.deep_view(),
            s == deep_of(list@),
            s.len() == list@.len(),
            out.deep_view() == sort_rank(s.take(k as int)),
        decreases list.len() - k,
    {
        let x = list[k].clone();
        let i = insert_pos_by_rank(&out, &x);
        let ghost out0 = out@;
        let ghost d0 = out.deep_view();
        out.insert(i, x);
        proof {
            lemma_insert_rank_at(s[k as int], d0, i as int);
            lemma_deep_of_insert(out0, i as int, x);
            lemma_deep_view_is(&out);
            assert(x@ == s[k as int]);
            assert(d0.insert(i as int, x@) =~= d0.subrange(0, i as int) + seq![x@] + d0.subrange(
                i as int,
                d0.len() as int,
            ));
            assert(s.take(k as int + 1).drop_last() =~= s.take(k as int));
            assert(s.take(k as int + 1).last() == s[k as int]);
        }
        k += 1;
    }
    proof {
        assert(s.take(list@.len() as int) =~= s);
    }
    out
}

/// Keep at most 3 non-running entries, in order; running entries all stay.
fn cap_exec(list: &Vec<App>) -> (r: Vec<App>)
    ensures
        r.deep_view() == cap_non_running(list.deep_view(), 3),
{
    let ghost s = list.deep_view();
    let mut out: Vec<App> = Vec::new();
    let mut budget: usize = 3;
    let mut i: usize = 0;
    proof {
        lemma_deep_view_is(list);
        lemma_deep_view_is(&out);
        assert(s.skip(0) =~= s);
        assert(out.deep_view() + cap_non_running(s, 3) =~= cap_non_running(s, 3));
    }
    while i < list.len()
        invariant
            0 <= i <= list.len(),
            budget <= 3,
            s == list.deep_view(),
            s == deep_of(list@),
            s.len() == list@.len(),
            cap_non_running(s, 3) == out.deep_view() + cap_non_running(
                s.skip(i as int),
                budget as nat,
            ),
        decreases list.len() - i,
    {
        proof {
            assert(s.skip(i as int).drop_first() =~= s.skip(i as int + 1));
            assert(s.skip(i as int)[0] == s[i as int]);
            assert(s[i as int] == list@[i as int]@);
        }
        let ghost out0 = out@;
        if list[i].pid != 0 {
            out.push(list[i].clone());
            proof {
                lemma_deep_of_push(out0, list@[i as int]);
                lemma_deep_view_is(&out);
                assert(deep_of(out0).push(s[i as int]) + cap_non_running(
                    s.skip(i as int + 1),
                    budget as nat,
                ) =~= deep_of(out0) + (seq![s[i as int]] + cap_non_running(
                    s.skip(i as int + 1),
                    budget as nat,
                )));
            }
        } else if budget > 0 {
            out.push(list[i].clone());
            budget -= 1;
            proof {
                lemma_deep_of_push(out0, list@[i as int]);
                lemma_deep_view_is(&out);
                assert(deep_of(out0).push(s[i as int]) + cap_non_running(
                    s.skip(i as int + 1),
                    budget as nat,
                ) =~= deep_of(out0) + (seq![s[i as int]] + cap_non_running(
                    s.skip(i as int + 1),
                    budget as nat,
                )));
            }
        }
        i += 1;
    }
    proof {
        assert(s.skip(list@.len() as int) =~= Seq::<AppView>::empty());
        assert(out.deep_view() + cap_non_running(Seq::<AppView>::empty(), budget as nat)
            =~= out.deep_view());
    }
    out
}

/// The list component's state: the entries currently shown.
pub struct List {
    pub items: Vec<App>,
}

impl List {
    /// A list showing the given entries.
    pub fn new(items: Vec<App>) -> (r: Self)
        ensures
            r.items == items,
    {
        List { items }
    }

    /// The filtered, ranked view of `list` under `query`, exactly as
    /// [`spec_filter`] describes it.
    pub fn filter(query: &str, list: Vec<App>) -> (r: Vec<App>)
        ensures
            r.deep_view() == spec_filter(query@, list.deep_view()),
    {
        let base = if query.unicode_len() == 0 {
            retain_running(&list)
        } else {
            let m = retain_matched(&list, query);
            sort_by_score(&m, query)
        };
        let ranked = sort_by_rank(&base);
        cap_exec(&ranked)
    }
}

/// How many entries of `s` are not running.
pub open spec fn count_non_running(s: Seq<AppView>) -> nat
    decreases s.len(),
{
    if s.len() == 0 {
        0
    } else {
        (if s[0].pid == 0 {
            1nat
        } else {
            0nat
        }) + count_non_running(s.drop_first())
    }
}

/// The cap does what it says: no more than `k` non-running entries remain.
pub proof fn lemma_cap_non_running_bound(s: Seq<AppView>, k: nat)
    ensures
        count_non_running(cap_non_running(s, k)) <= k,
    decreases s.len(),
{
    if s.len() != 0 {
        let t = s.drop_first();
        if s[0].pid != 0 {
            lemma_cap_non_running_bound(t, k);
            lemma_count_non_running_cons(s[0], cap_non_running(t, k));
        } else if k > 0 {
            lemma_cap_non_running_bound(t, (k - 1) as nat);
            lemma_count_non_running_cons(s[0], cap_non_running(t, (k - 1) as nat));
        } else {
            lemma_cap_non_running_bound(t, k);
        }
    }
}

/// Unfolding `count_non_running` over a front element.
proof fn lemma_count_non_running_cons(x: AppView, s: Seq<AppView>)
    ensures
        count_non_running(seq![x] + s) == (if x.pid == 0 {
            1nat
        } else {
            0nat
        }) + count_non_running(s),
{
    assert((seq![x] + s)[0] == x);
    assert((seq![x] + s).drop_first() =~= s);
}

/// Keeping only the running entries never lengthens the list.
pub proof fn lemma_keep_running_len(s: Seq<AppView>)
    ensures
        keep_running(s).len() <= s.len(),
    decreases s.len(),
{
    if s.len() != 0 {
        lemma_keep_running_len(s.drop_first());
    }
}

/// Keeping only the matching entries never lengthens the list.
pub proof fn lemma_matched_len(s: Seq<AppView>, q: Seq<char>)
    ensures
        matched(s, q).len() <= s.len(),
    decreases s.len(),
{
    if s.len() != 0 {
        lemma_matched_len(s.drop_first(), q);
    }
}

/// Stable insertion adds exactly one entry.
pub proof fn lemma_insert_desc_len(x: AppView, s: Seq<AppView>, q: Seq<char>)
    ensures
        insert_desc(x, s, q).len() == s.len() + 1,
    decreases s.len(),
{
    if s.len() != 0 && score_ge(s[0], x, q) {
        lemma_insert_desc_len(x, s.drop_first(), q);
    }
}

/// The descending-score sort is a reordering: the length is kept.
pub proof fn lemma_sort_desc_len(s: Seq<AppView>, q: Seq<char>)
    ensures
        sort_desc(s, q).len() == s.len(),
    decreases s.len(),
{
    if s.len() != 0 {
        lemma_sort_desc_len(s.drop_last(), q);
        lemma_insert_desc_len(s.last(), sort_desc(s.drop_last(), q), q);
    }
}

/// Stable insertion adds exactly one entry.
pub proof fn lemma_insert_rank_len(x: AppView, s: Seq<AppView>)
    ensures
        insert_rank(x, s).len() == s.len() + 1,
    decreases s.len(),
{
    if s.len() != 0 && rank_of(s[0]) <= rank_of(x) {
        lemma_insert_rank_len(x, s.drop_first());
    }
}

/// The running-first sort is a reordering: the length is kept.
pub proof fn lemma_sort_rank_len(s: Seq<AppView>)
    ensures
        sort_rank(s).len() == s.len(),
    decreases s.len(),
{
    if s.len() != 0 {
        lemma_sort_rank_len(s.drop_last());
        lemma_insert_rank_len(s.last(), sort_rank(s.drop_last()));
    }
}

/// The cap never lengthens the list.
pub proof fn lemma_cap_non_running_len(s: Seq<AppView>, k: nat)
    ensures
        cap_non_running(s, k).len() <= s.len(),
    decreases s.len(),
{
    if s.len() != 0 {
        if s[0].pid != 0 {
            lemma_cap_non_running_len(s.drop_first(), k);
        } else if k > 0 {
            lemma_cap_non_running_len(s.drop_first(), (k - 1) as nat);
        } else {
            lemma_cap_non_running_len(s.drop_first(), k);
        }
    }
}

/// The filtered view never shows more entries than the registry holds.
pub proof fn lemma_spec_filter_len(q: Seq<char>, s: Seq<AppView>)
    ensures
        spec_filter(q, s).len() <= s.len(),
{
    let base = if q.len() == 0 {
        keep_running(s)
    } else {
        sort_desc(matched(s, q), q)
    };
    if q.len() == 0 {
        lemma_keep_running_len(s);
    } else {
        lemma_matched_len(s, q);
        lemma_sort_desc_len(matched(s, q), q);
    }
    lemma_sort_rank_len(base);
    lemma_cap_non_running_len(sort_rank(base), 3);
}

/// The view is ordered by the running-first rank: every entry is ranked
/// at most as high as each entry after it.
pub open spec fn sorted_by_rank(s: Seq<AppView>) -> bool {
    forall|i: int, j: int| 0 <= i < j < s.len() ==> rank_of(s[i]) <= rank_of(s[j])
}

/// The view is ordered by descending score.
pub open spec fn sorted_by_score(s: Seq<AppView>, q: Seq<char>) -> bool {
    forall|i: int, j: int| 0 <= i < j < s.len() ==> score_of(s[i], q) >= score_of(s[j], q)
}

/// Every entry of a rank insertion is the inserted one or one of the
/// old ones.
proof fn lemma_insert_rank_contains(x: AppView, s: Seq<AppView>)
    ensures
        forall|k: int|
            0 <= k < insert_rank(x, s).len() ==> insert_rank(x, s)[k] == x || s.contains(
                #[trigger] insert_rank(x, s)[k],
            ),
    decreases s.len(),
{
    let r = insert_rank(x, s);
    if s.len() == 0 {
    } else if rank_of(s[0]) <= rank_of(x) {
        let t = s.drop_first();
        lemma_insert_rank_contains(x, t);
        assert forall|k: int| 0 <= k < r.len() implies r[k] == x || s.contains(r[k]) by {
            if k == 0 {
                assert(r[0] == s[0]);
                assert(s.contains(s[0]));
            } else {
                assert(r[k] == insert_rank(x, t)[k - 1]);
                if insert_rank(x, t)[k - 1] != x {
                    let i = choose|i: int| 0 <= i < t.len() && t[i] == insert_rank(x, t)[k - 1];
                    assert(s[i + 1] == t[i]);
                    assert(s.contains(s[i + 1]));
                }
            }
        }
    } else {
        assert forall|k: int| 0 <= k < r.len() implies r[k] == x || s.contains(r[k]) by {
            if k > 0 {
                assert(r[k] == s[k - 1]);
                assert(s.contains(s[k - 1]));
            }
        }
    }
}

/// Inserting into a rank-ordered list keeps it ordered.
proof fn lemma_insert_rank_sorted(x: AppView, s: Seq<AppView>)
    requires
        sorted_by_rank(s),
    ensures
        sorted_by_rank(insert_rank(x, s)),
    decreases s.len(),
{
    let r = insert_rank(x, s);
    if s.len() == 0 {
    } else if rank_of(s[0]) <= rank_of(x) {
        let t = s.drop_first();
        assert(forall|i: int| 0 <= i < t.len() ==> t[i] == s[i + 1]);
        lemma_insert_rank_sorted(x, t);
        lemma_insert_rank_contains(x, t);
        assert forall|i: int, j: int|
            0 <= i < j < r.len() implies rank_of(r[i]) <= rank_of(r[j]) by {
            if i == 0 {
                assert(r[j] == insert_rank(x, t)[j - 1]);
                if insert_rank(x, t)[j - 1] != x {
                    let w = choose|w: int|
                        0 <= w < t.len() && t[w] == insert_rank(x, t)[j - 1];
                    assert(rank_of(s[0]) <= rank_of(s[w + 1]));
                }
            } else {
                assert(r[i] == insert_rank(x, t)[i - 1]);
                assert(r[j] == insert_rank(x, t)[j - 1]);
            }
        }
    } else {
        assert forall|i: int, j: int|
            0 <= i < j < r.len() implies rank_of(r[i]) <= rank_of(r[j]) by {
            if i == 0 {
                assert(r[j] == s[j - 1]);
                if j > 1 {
                    assert(rank_of(s[0]) <= rank_of(s[j - 1]));
                }
            } else {
                assert(r[i] == s[i - 1]);
                assert(r[j] == s[j - 1]);
            }
        }
    }
}

/// The running-first sort really orders by rank.
pub proof fn lemma_sort_rank_sorted(s: Seq<AppView>)
    ensures
        sorted_by_rank(sort_rank(s)),
    decreases s.len(),
{
    if s.len() != 0 {
        lemma_sort_rank_sorted(s.drop_last());
        lemma_insert_rank_sorted(s.last(), sort_rank(s.drop_last()));
    }
}

/// Every entry of a score insertion is the inserted one or one of the
/// old ones.
proof fn lemma_insert_desc_contains(x: AppView, s: Seq<AppView>, q: Seq<char>)
    ensures
        forall|k: int|
            0 <= k < insert_desc(x, s, q).len() ==> insert_desc(x, s, q)[k] == x || s.contains(
                #[trigger] insert_desc(x, s, q)[k],
            ),
    decreases s.len(),
{
    let r = insert_desc(x, s, q);
    if s.len() == 0 {
    } else if score_ge(s[0], x, q) {
        let t = s.drop_first();
        lemma_insert_desc_contains(x, t, q);
        assert forall|k: int| 0 <= k < r.len() implies r[k] == x || s.contains(r[k]) by {
            if k == 0 {
                assert(r[0] == s[0]);
                assert(s.contains(s[0]));
            } else {
                assert(r[k] == insert_desc(x, t, q)[k - 1]);
                if insert_desc(x, t, q)[k - 1] != x {
                    let i = choose|i: int|
                        0 <= i < t.len() && t[i] == insert_desc(x, t, q)[k - 1];
                    assert(s[i + 1] == t[i]);
                    assert(s.contains(s[i + 1]));
                }
            }
        }
    } else {
        assert forall|k: int| 0 <= k < r.len() implies r[k] == x || s.contains(r[k]) by {
            if k > 0 {
                assert(r[k] == s[k - 1]);
                assert(s.contains(s[k - 1]));
            }
        }
    }
}

/// Inserting into a score-ordered list keeps it ordered.
proof fn lemma_insert_desc_sorted(x: AppView, s: Seq<AppView>, q: Seq<char>)
    requires
        sorted_by_score(s, q),
    ensures
        sorted_by_score(insert_desc(x, s, q), q),
    decreases s.len(),
{
    let r = insert_desc(x, s, q);
    if s.len() == 0 {
    } else if score_ge(s[0], x, q) {
        let t = s.drop_first();
        assert(forall|i: int| 0 <= i < t.len() ==> t[i] == s[i + 1]);
        lemma_insert_desc_sorted(x, t, q);
        lemma_insert_desc_contains(x, t, q);
        assert forall|i: int, j: int|
            0 <= i < j < r.len() implies score_of(r[i], q) >= score_of(r[j], q) by {
            if i == 0 {
                assert(r[j] == insert_desc(x, t, q)[j - 1]);
                if insert_desc(x, t, q)[j - 1] != x {
                    let w = choose|w: int|
                        0 <= w < t.len() && t[w] == insert_desc(x, t, q)[j - 1];
                    assert(score_of(s[0], q) >= score_of(s[w + 1], q));
                }
            } else {
                assert(r[i] == insert_desc(x, t, q)[i - 1]);
                assert(r[j] == insert_desc(x, t, q)[j - 1]);
            }
        }
    } else {
        assert forall|i: int, j: int|
            0 <= i < j < r.len() implies score_of(r[i], q) >= score_of(r[j], q) by {
            if i == 0 {
                assert(r[j] == s[j - 1]);
                if j > 1 {
                    assert(score_of(s[0], q) >= score_of(s[j - 1], q));
                }
            } else {
                assert(r[i] == s[i - 1]);
                assert(r[j] == s[j - 1]);
            }
        }
    }
}

/// The score sort really orders by descending score.
pub proof fn lemma_sort_desc_sorted(s: Seq<AppView>, q: Seq<char>)
    ensures
        sorted_by_score(sort_desc(s, q), q),
    decreases s.len(),
{
    if s.len() != 0 {
        lemma_sort_desc_sorted(s.drop_last(), q);
        lemma_insert_desc_sorted(s.last(), sort_desc(s.drop_last(), q), q);
    }
}

/// Rank insertion adds exactly the inserted entry.
proof fn lemma_insert_rank_multiset(x: AppView, s: Seq<AppView>)
    ensures
        insert_rank(x, s).to_multiset() == s.to_multiset().insert(x),
    decreases s.len(),
{
    broadcast use vstd::seq_lib::group_to_multiset_ensures;

    if s.len() == 0 {
        assert(seq![x] =~= Seq::<AppView>::empty().push(x));
        assert(insert_rank(x, s).to_multiset() =~= s.to_multiset().insert(x));
    } else if rank_of(s[0]) <= rank_of(x) {
        let t = s.drop_first();
        lemma_insert_rank_multiset(x, t);
        vstd::seq_lib::lemma_multiset_commutative(seq![s[0]], insert_rank(x, t));
        assert(s =~= seq![s[0]] + t);
        vstd::seq_lib::lemma_multiset_commutative(seq![s[0]], t);
        assert(insert_rank(x, s).to_multiset() =~= s.to_multiset().insert(x));
    } else {
        vstd::seq_lib::lemma_multiset_commutative(seq![x], s);
        assert(seq![x] =~= Seq::<AppView>::empty().push(x));
        assert(insert_rank(x, s).to_multiset() =~= s.to_multiset().insert(x));
    }
}

/// The running-first sort is a permutation: it neither drops, adds nor
/// duplicates an entry.
pub proof fn lemma_sort_rank_permutes(s: Seq<AppView>)
    ensures
        sort_rank(s).to_multiset() == s.to_multiset(),
    decreases s.len(),
{
    broadcast use vstd::seq_lib::group_to_multiset_ensures;

    if s.len() != 0 {
        lemma_sort_rank_permutes(s.drop_last());
        lemma_insert_rank_multiset(s.last(), sort_rank(s.drop_last()));
        assert(s =~= s.drop_last().push(s.last()));
        assert(sort_rank(s).to_multiset() =~= s.to_multiset());
    }
}

/// Score insertion adds exactly the inserted entry.
proof fn lemma_insert_desc_multiset(x: AppView, s: Seq<AppView>, q: Seq<char>)
    ensures
        insert_desc(x, s, q).to_multiset() == s.to_multiset().insert(x),
    decreases s.len(),
{
    broadcast use vstd::seq_lib::group_to_multiset_ensures;

    if s.len() == 0 {
        assert(seq![x] =~= Seq::<AppView>::empty().push(x));
        assert(insert_desc(x, s, q).to_multiset() =~= s.to_multiset().insert(x));
    } else if score_ge(s[0], x, q) {
        let t = s.drop_first();
        lemma_insert_desc_multiset(x, t, q);
        vstd::seq_lib::lemma_multiset_commutative(seq![s[0]], insert_desc(x, t, q));
        assert(s =~= seq![s[0]] + t);
        vstd::seq_lib::lemma_multiset_commutative(seq![s[0]], t);
        assert(insert_desc(x, s, q).to_multiset() =~= s.to_multiset().insert(x));
    } else {
        vstd::seq_lib::lemma_multiset_commutative(seq![x], s);
        assert(seq![x] =~= Seq::<AppView>::empty().push(x));
        assert(insert_desc(x, s, q).to_multiset() =~= s.to_multiset().insert(x));
    }
}

/// The score sort is a permutation: it neither drops, adds nor
/// duplicates an entry.
pub proof fn lemma_sort_desc_permutes(s: Seq<AppView>, q: Seq<char>)
    ensures
        sort_desc(s, q).to_multiset() == s.to_multiset(),
    decreases s.len(),
{
    broadcast use vstd::seq_lib::group_to_multiset_ensures;

    if s.len() != 0 {
        lemma_sort_desc_permutes(s.drop_last(), q);
        lemma_insert_desc_multiset(s.last(), sort_desc(s.drop_last(), q), q);
        assert(s =~= s.drop_last().push(s.last()));
        assert(sort_desc(s, q).to_multiset() =~= s.to_multiset());
    }
}

/// The cap keeps the entries in order, so it keeps them rank-ordered.
proof fn lemma_cap_sorted(s: Seq<AppView>, k: nat)
    requires
        sorted_by_rank(s),
    ensures
        sorted_by_rank(cap_non_running(s, k)),
    decreases s.len(),
{
    if s.len() != 0 {
        let t = s.drop_first();
        assert(forall|i: int| 0 <= i < t.len() ==> t[i] == s[i + 1]);
        let r = cap_non_running(s, k);
        if s[0].pid != 0 || k > 0 {
            let k1: nat = if s[0].pid != 0 {
                k
            } else {
                (k - 1) as nat
            };
            lemma_cap_sorted(t, k1);
            lemma_cap_contains(t, k1);
            assert forall|i: int, j: int|
                0 <= i < j < r.len() implies rank_of(r[i]) <= rank_of(r[j]) by {
                if i == 0 {
                    assert(r[j] == cap_non_running(t, k1)[j - 1]);
                    let w = choose|w: int|
                        0 <= w < t.len() && t[w] == cap_non_running(t, k1)[j - 1];
                    assert(rank_of(s[0]) <= rank_of(s[w + 1]));
                } else {
                    assert(r[i] == cap_non_running(t, k1)[i - 1]);
                    assert(r[j] == cap_non_running(t, k1)[j - 1]);
                }
            }
        } else {
            lemma_cap_sorted(t, k);
        }
    }
}

/// Every capped entry is one of the old ones.
proof fn lemma_cap_contains(s: Seq<AppView>, k: nat)
    ensures
        forall|j: int|
            0 <= j < cap_non_running(s, k).len() ==> s.contains(
                #[trigger] cap_non_running(s, k)[j],
            ),
    decreases s.len(),
{
    if s.len() != 0 {
        let t = s.drop_first();
        let r = cap_non_running(s, k);
        if s[0].pid != 0 || k > 0 {
            let k1: nat = if s[0].pid != 0 {
                k
            } else {
                (k - 1) as nat
            };
            lemma_cap_contains(t, k1);
            assert forall|j: int| 0 <= j < r.len() implies s.contains(r[j]) by {
                if j == 0 {
                    assert(r[0] == s[0]);
                    assert(s.contains(s[0]));
                } else {
                    assert(r[j] == cap_non_running(t, k1)[j - 1]);
                    let w = choose|w: int|
                        0 <= w < t.len() && t[w] == cap_non_running(t, k1)[j - 1];
                    assert(s[w + 1] == t[w]);
                    assert(s.contains(s[w + 1]));
                }
            }
        } else {
            lemma_cap_contains(t, k);
            assert forall|j: int| 0 <= j < r.len() implies s.contains(r[j]) by {
                assert(r[j] == cap_non_running(t, k)[j]);
                let w = choose|w: int| 0 <= w < t.len() && t[w] == cap_non_running(t, k)[j];
                assert(s[w + 1] == t[w]);
                assert(s.contains(s[w + 1]));
            }
        }
    }
}

/// Running-first ordering, over the whole view: in the filtered view
/// every entry is ranked at most as high as each entry after it — all
/// running entries precede all non-running ones, and among the
/// non-running ones those under the system applications directory come
/// first.
pub proof fn lemma_filter_running_first(q: Seq<char>, s: Seq<AppView>)
    ensures
        sorted_by_rank(spec_filter(q, s)),
{
    let base = if q.len() == 0 {
        keep_running(s)
    } else {
        sort_desc(matched(s, q), q)
    };
    lemma_sort_rank_sorted(base);
    lemma_cap_sorted(sort_rank(base), 3);
}

/// Non-running cap, over the whole view: the filtered view never shows
/// more than 3 non-running entries.
pub proof fn lemma_non_running_cap(q: Seq<char>, s: Seq<AppView>)
    ensures
        count_non_running(spec_filter(q, s)) <= 3,
{
    let base = if q.len() == 0 {
        keep_running(s)
    } else {
        sort_desc(matched(s, q), q)
    };
    lemma_cap_non_running_bound(sort_rank(base), 3);
}

} // verus!
