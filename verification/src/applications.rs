//! The ordered registry of application entries, the active-selection index,
//! and the actions that mutate them.

use vstd::prelude::*;

use crate::events::{App, AppView, clone_entries};
use crate::list::{List, lemma_spec_filter_len, spec_filter};

verus! {

/// The registry: an ordered list of entries, the zero-based index of the
/// active selection in the current filtered view, and a flag that stays set
/// until the first full list has arrived from the helper.
#[derive(Debug)]
pub struct Applications {
    pub list: Vec<App>,
    pub index: usize,
    pub loading: bool,
}

/// An OS-level action against the selected entry.
#[derive(Debug, Clone, Copy)]
pub enum ActionType {
    Activate,
    Hide,
    Quit,
}

/// How to move the active index (or where to insert an entry).
#[derive(Debug, Clone, Copy)]
pub enum IndexType {
    Start,
    End,
    Next,
    Previous,
}

/// An OS-level request that a handler decided on; carried out by the
/// unverified shell around the library.
#[derive(Debug, PartialEq, Eq)]
pub enum OsRequest {
    /// Bring the running entry's process to the foreground.
    ActivateRunning(App),
    /// Hide the running entry's process.
    HideRunning(App),
    /// Terminate the running entry's process.
    QuitRunning(App),
    /// Launch the executable at the entry's path.
    Launch(App),
}

/// Mathematical model of an [`OsRequest`].
pub ghost enum OsRequestView {
    ActivateRunning(AppView),
    HideRunning(AppView),
    QuitRunning(AppView),
    Launch(AppView),
}

impl DeepView for OsRequest {
    type V = OsRequestView;

    open spec fn deep_view(&self) -> OsRequestView {
        match self {
            OsRequest::ActivateRunning(a) => OsRequestView::ActivateRunning(a.deep_view()),
            OsRequest::HideRunning(a) => OsRequestView::HideRunning(a.deep_view()),
            OsRequest::QuitRunning(a) => OsRequestView::QuitRunning(a.deep_view()),
            OsRequest::Launch(a) => OsRequestView::Launch(a.deep_view()),
        }
    }
}

/// Index of the first entry named `name`, or -1 when no entry has that name.
pub open spec fn find_name(s: Seq<AppView>, name: Seq<char>) -> int
    decreases s.len(),
{
    if s.len() == 0 {
        -1
    } else if s[0].name == name {
        0
    } else if find_name(s.drop_first(), name) == -1 {
        -1
    } else {
        find_name(s.drop_first(), name) + 1
    }
}

/// `s` with its first entry named `name` removed; `s` itself when none is.
pub open spec fn remove_first_name(s: Seq<AppView>, name: Seq<char>) -> Seq<AppView> {
    if find_name(s, name) == -1 {
        s
    } else {
        s.remove(find_name(s, name))
    }
}

/// `s` with the first entry named `name` marked as not running (`pid == 0`);
/// `s` itself when none is.
pub open spec fn mark_not_running(s: Seq<AppView>, name: Seq<char>) -> Seq<AppView> {
    if find_name(s, name) == -1 {
        s
    } else {
        let i = find_name(s, name);
        s.update(i, AppView { pid: 0, ..s[i] })
    }
}

/// Upsert at the front: any prior entry with the same name is removed first,
/// then the entry is inserted at index 0.
pub open spec fn upsert_front(s: Seq<AppView>, a: AppView) -> Seq<AppView> {
    seq![a] + remove_first_name(s, a.name)
}

/// How many entries of `s` are named `name`.
pub open spec fn count_name(s: Seq<AppView>, name: Seq<char>) -> nat
    decreases s.len(),
{
    if s.len() == 0 {
        0
    } else {
        (if s[0].name == name {
            1nat
        } else {
            0nat
        }) + count_name(s.drop_first(), name)
    }
}

/// The registry invariant on the list: no two entries share a name.
pub open spec fn unique_names(s: Seq<AppView>) -> bool {
    forall|i: int, j: int| 0 <= i < j < s.len() ==> s[i].name != s[j].name
}

/// Index arithmetic shared by the active selection and insert positions:
/// `Start` is 0, `End` is the length, `Next`/`Previous` wrap around, and on
/// an empty list every movement stays at 0.
pub open spec fn spec_index_from(len: nat, current: nat, index_type: IndexType) -> nat {
    match index_type {
        IndexType::Start => 0,
        IndexType::End => len,
        IndexType::Next => if len == 0 {
            0
        } else {
            ((current as int + 1) % (len as int)) as nat
        },
        IndexType::Previous => if len == 0 {
            0
        } else if current == 0 {
            (len - 1) as nat
        } else {
            (current - 1) as nat
        },
    }
}

/// What carrying out an action against the selected entry of the filtered
/// view does: the new list, selection index and query, and the OS-level
/// request that remains. A running entry is activated (moved to the
/// front), hidden (moved to the back, with a reset of selection and query)
/// or quit (marked not running, with a reset); a non-running entry is
/// launched on `Activate` (moved to the front, with a reset) and left
/// alone otherwise. Nothing happens when the view is empty or the
/// selection runs past it.
pub open spec fn spec_execute_action(
    l0: Seq<AppView>,
    idx: nat,
    q: Seq<char>,
    action_type: ActionType,
) -> (Seq<AppView>, nat, Seq<char>, Option<OsRequestView>) {
    let f = spec_filter(q, l0);
    if f.len() == 0 || idx >= f.len() {
        (l0, idx, q, None)
    } else {
        let a = f[idx as int];
        if a.pid != 0 {
            match action_type {
                ActionType::Activate => (
                    upsert_front(l0, a),
                    idx,
                    q,
                    Some(OsRequestView::ActivateRunning(a)),
                ),
                ActionType::Hide => (
                    remove_first_name(l0, a.name).insert(
                        remove_first_name(l0, a.name).len() as int,
                        a,
                    ),
                    0,
                    Seq::empty(),
                    Some(OsRequestView::HideRunning(a)),
                ),
                ActionType::Quit => (
                    mark_not_running(l0, a.name),
                    0,
                    Seq::empty(),
                    Some(OsRequestView::QuitRunning(a)),
                ),
            }
        } else {
            match action_type {
                ActionType::Activate => (
                    upsert_front(l0, a),
                    0,
                    Seq::empty(),
                    Some(OsRequestView::Launch(a)),
                ),
                _ => (l0, idx, q, None),
            }
        }
    }
}

/// What `find_name` returns: the first index carrying `name`, if any.
pub proof fn lemma_find_name(s: Seq<AppView>, name: Seq<char>)
    ensures
        find_name(s, name) == -1 ==> forall|i: int| 0 <= i < s.len() ==> s[i].name != name,
        find_name(s, name) != -1 ==> {
            &&& 0 <= find_name(s, name) < s.len()
            &&& s[find_name(s, name)].name == name
            &&& forall|i: int| 0 <= i < find_name(s, name) ==> s[i].name != name
        },
    decreases s.len(),
{
    if s.len() != 0 && s[0].name != name {
        let t = s.drop_first();
        lemma_find_name(t, name);
        if find_name(t, name) == -1 {
            assert forall|i: int| 0 <= i < s.len() implies s[i].name != name by {
                if i > 0 {
                    assert(t[i - 1] == s[i]);
                }
            }
        } else {
            let r = find_name(s, name);
            assert(s[r] == t[r - 1]);
            assert forall|i: int| 0 <= i < r implies s[i].name != name by {
                if i > 0 {
                    assert(t[i - 1] == s[i]);
                }
            }
        }
    }
}

/// `find_name` finds exactly the witnessed first occurrence.
pub proof fn lemma_find_name_at(s: Seq<AppView>, name: Seq<char>, i: int)
    requires
        0 <= i < s.len(),
        s[i].name == name,
        forall|k: int| 0 <= k < i ==> s[k].name != name,
    ensures
        find_name(s, name) == i,
    decreases s.len(),
{
    if i != 0 {
        let t = s.drop_first();
        assert(t[i - 1] == s[i]);
        assert forall|k: int| 0 <= k < i - 1 implies t[k].name != name by {
            assert(t[k] == s[k + 1]);
        }
        lemma_find_name_at(t, name, i - 1);
    }
}

/// `count_name` is 0 exactly when no entry of `s` carries `name`.
pub proof fn lemma_count_name_zero(s: Seq<AppView>, name: Seq<char>)
    ensures
        (count_name(s, name) == 0) <==> (forall|i: int| 0 <= i < s.len() ==> s[i].name != name),
    decreases s.len(),
{
    if s.len() != 0 {
        lemma_count_name_zero(s.drop_first(), name);
        assert(forall|i: int| 1 <= i < s.len() ==> s[i] == s.drop_first()[i - 1]);
        assert(forall|i: int|
            0 <= i < s.drop_first().len() ==> s.drop_first()[i] == s[i + 1]);
    }
}

/// `count_name` distributes over concatenation.
pub proof fn lemma_count_name_concat(x: Seq<AppView>, y: Seq<AppView>, name: Seq<char>)
    ensures
        count_name(x + y, name) == count_name(x, name) + count_name(y, name),
    decreases x.len(),
{
    if x.len() == 0 {
        assert(x + y =~= y);
    } else {
        assert((x + y).drop_first() =~= x.drop_first() + y);
        assert((x + y)[0] == x[0]);
        lemma_count_name_concat(x.drop_first(), y, name);
    }
}

/// Removing the first entry named `name` from a duplicate-free list leaves
/// no entry with that name, and keeps the list duplicate-free.
pub proof fn lemma_remove_first_name_unique(s: Seq<AppView>, name: Seq<char>)
    requires
        unique_names(s),
    ensures
        unique_names(remove_first_name(s, name)),
        count_name(remove_first_name(s, name), name) == 0,
{
    lemma_find_name(s, name);
    if find_name(s, name) == -1 {
        lemma_count_name_zero(s, name);
    } else {
        let i = find_name(s, name);
        s.remove_ensures(i);
        let r = s.remove(i);
        assert forall|j: int| 0 <= j < r.len() implies r[j].name != name by {
            if j < i {
                assert(r[j] == s[j]);
            } else {
                assert(r[j] == s[j + 1]);
            }
        }
        lemma_count_name_zero(r, name);
        assert forall|p: int, q: int| 0 <= p < q < r.len() implies r[p].name != r[q].name by {
            let sp = if p < i {
                p
            } else {
                p + 1
            };
            let sq = if q < i {
                q
            } else {
                q + 1
            };
            assert(r[p] == s[sp]);
            assert(r[q] == s[sq]);
        }
    }
}

/// An upsert at the front of a duplicate-free list puts the entry at index
/// 0 and leaves it the only entry with its name; the list stays
/// duplicate-free.
pub proof fn lemma_upsert_front(s: Seq<AppView>, a: AppView)
    requires
        unique_names(s),
    ensures
        upsert_front(s, a)[0] == a,
        count_name(upsert_front(s, a), a.name) == 1,
        unique_names(upsert_front(s, a)),
{
    let r = remove_first_name(s, a.name);
    lemma_remove_first_name_unique(s, a.name);
    lemma_count_name_zero(r, a.name);
    lemma_count_name_concat(seq![a], r, a.name);
    assert(seq![a].drop_first() =~= Seq::<AppView>::empty());
    assert(count_name(Seq::<AppView>::empty(), a.name) == 0);
    assert(count_name(seq![a], a.name) == 1);
    let u = upsert_front(s, a);
    assert forall|p: int, q: int| 0 <= p < q < u.len() implies u[p].name != u[q].name by {
        assert(u[q] == r[q - 1]);
        if p > 0 {
            assert(u[p] == r[p - 1]);
        }
    }
}

/// Registry upsert uniqueness: after upserting an entry at the front and
/// then upserting an entry with the same name (say, with changed fields)
/// at the front again, the registry holds exactly one entry with that name,
/// with the latest values, at the front.
pub proof fn lemma_registry_upsert_uniqueness(s: Seq<AppView>, a1: AppView, a2: AppView)
    requires
        unique_names(s),
        a2.name == a1.name,
    ensures
        upsert_front(upsert_front(s, a1), a2)[0] == a2,
        count_name(upsert_front(upsert_front(s, a1), a2), a2.name) == 1,
        unique_names(upsert_front(upsert_front(s, a1), a2)),
{
    lemma_upsert_front(s, a1);
    lemma_upsert_front(upsert_front(s, a1), a2);
}

/// Navigation wraparound: `Next` on the last index of an `len`-entry view
/// lands on 0, `Previous` on index 0 lands on the last index, and on an
/// empty view both stay at 0.
pub proof fn lemma_navigation_wraparound(len: nat, current: nat)
    ensures
        len != 0 && current == len - 1 ==> spec_index_from(len, current, IndexType::Next) == 0,
        len != 0 && current == 0 ==> spec_index_from(len, current, IndexType::Previous) == (len
            - 1) as nat,
        len == 0 ==> spec_index_from(len, current, IndexType::Next) == 0 && spec_index_from(
            len,
            current,
            IndexType::Previous,
        ) == 0,
{
    if len != 0 && current == len - 1 {
        vstd::arithmetic::div_mod::lemma_mod_self_0(len as int);
    }
}

impl Applications {
    /// Validity of the registry: the selection index never runs past the
    /// list. (It is 0 or a valid index of the filtered view, whose length is
    /// at most the list's.)
    pub open spec fn well_formed(&self) -> bool {
        self.index <= self.list@.len()
    }

    /// The registry starts empty, with the selection at 0, and loading.
    pub fn new() -> (r: Self)
        ensures
            r.list@.len() == 0,
            r.index == 0,
            r.loading,
            r.well_formed(),
    {
        Applications { list: Vec::new(), index: 0, loading: true }
    }

    /// Replace the registry wholesale with a fresh full list; the selection
    /// returns to the top and loading is over.
    pub fn update_list(&mut self, list: Vec<App>)
        ensures
            final(self).list == list,
            final(self).index == 0,
            !final(self).loading,
            final(self).well_formed(),
    {
        self.list = list;
        self.index = 0;
        self.loading = false;
    }

    /// The first entry of `list` named `name`, if any, as `find_name` sees it.
    fn position_of_name(list: &Vec<App>, name: &String) -> (r: Option<usize>)
        ensures
            match r {
                Some(i) => find_name(list.deep_view(), name@) == i,
                None => find_name(list.deep_view(), name@) == -1,
            },
    {
        let ghost s = list.deep_view();
        let mut i: usize = 0;
        while i < list.len()
            invariant
                0 <= i <= list.len(),
                s == list.deep_view(),
                s.len() == list.len(),
                forall|k: int| 0 <= k < i ==> s[k].name != name@,
            decreases list.len() - i,
        {
            assert(s[i as int] == list[i as int].deep_view());
            if list[i].name == *name {
                proof {
                    lemma_find_name_at(s, name@, i as int);
                }
                return Some(i);
            }
            i += 1;
        }
        proof {
            lemma_find_name(s, name@);
        }
        None
    }

    /// Where the given movement lands, over a list of `list.len()` entries.
    pub fn get_index_from_type(list: &Vec<App>, current_index: usize, index_type: IndexType) -> (r:
        usize)
        ensures
            r == spec_index_from(list@.len() as nat, current_index as nat, index_type),
    {
        match index_type {
            IndexType::Start => 0,
            IndexType::End => list.len(),
            IndexType::Next => {
                if list.len() == 0 {
                    0
                } else {
                    let r = (current_index % list.len() + 1) % list.len();
                    proof {
                        let c = current_index as int;
                        let m = list@.len() as int;
                        vstd::arithmetic::div_mod::lemma_add_mod_noop(c, 1, m);
                        vstd::arithmetic::div_mod::lemma_mod_bound(c % m + 1, m);
                        vstd::arithmetic::div_mod::lemma_mod_bound(c + 1, m);
                        if m > 1 {
                            vstd::arithmetic::div_mod::lemma_small_mod(1nat, m as nat);
                        } else {
                            vstd::arithmetic::div_mod::lemma_mod_bound(c % m + 1, 1);
                            vstd::arithmetic::div_mod::lemma_mod_bound(c + 1, 1);
                        }
                    }
                    r
                }
            },
            IndexType::Previous => {
                if list.len() == 0 {
                    0
                } else if current_index == 0 {
                    list.len() - 1
                } else {
                    current_index - 1
                }
            },
        }
    }

    /// Move the active selection over the current filtered view, with
    /// wraparound at both ends; on an empty view the selection stays at 0.
    pub fn update_active_index(&mut self, query: &str, index_type: IndexType)
        requires
            old(self).well_formed(),
        ensures
            final(self).list == old(self).list,
            final(self).loading == old(self).loading,
            final(self).index == spec_index_from(
                spec_filter(query@, old(self).list.deep_view()).len(),
                old(self).index as nat,
                index_type,
            ),
            final(self).well_formed(),
    {
        let filtered = List::filter(query, clone_entries(&self.list));
        proof {
            assert(filtered.deep_view().len() == filtered@.len());
        }
        self.index = Self::get_index_from_type(&filtered, self.index, index_type);
        proof {
            let f = spec_filter(query@, self.list.deep_view());
            lemma_spec_filter_len(query@, self.list.deep_view());
            assert(self.list.deep_view().len() == self.list@.len());
            if f.len() > 0 {
                vstd::arithmetic::div_mod::lemma_mod_bound(
                    old(self).index as int + 1,
                    f.len() as int,
                );
            }
        }
    }

    /// Carry out an action against the currently selected entry of the
    /// filtered view: a running entry is activated (moved to the front),
    /// hidden (moved to the back, with the selection and query reset) or
    /// quit (marked not running, with a reset); a non-running entry is
    /// launched on `Activate` (moved to the front, with a reset) and left
    /// alone otherwise. The returned request names the OS-level work that
    /// remains.
    pub fn execute_action(&mut self, query: &mut String, action_type: ActionType) -> (r: Option<
        OsRequest,
    >)
        requires
            old(self).well_formed(),
        ensures
            final(self).well_formed(),
            final(self).loading == old(self).loading,
            ({
                let (l1, i1, q1, os) = spec_execute_action(
                    old(self).list.deep_view(),
                    old(self).index as nat,
                    old(query)@,
                    action_type,
                );
                &&& final(self).list.deep_view() == l1
                &&& final(self).index == i1
                &&& final(query)@ == q1
                &&& r.deep_view() == os
            }),
    {
        let filtered = List::filter(query.as_str(), clone_entries(&self.list));
        proof {
            assert(filtered.deep_view().len() == filtered@.len());
        }
        if filtered.len() == 0 {
            return None;
        }
        if self.index >= filtered.len() {
            return None;
        }
        let app = &filtered[self.index];
        proof {
            assert(filtered@[old(self).index as int]@ == filtered.deep_view()[old(
                self,
            ).index as int]);
        }
        if app.pid != 0 {
            match action_type {
                ActionType::Activate => {
                    self.update_list_entry(Some(app), Some(IndexType::Start), false, query);
                    Some(OsRequest::ActivateRunning(app.clone()))
                },
                ActionType::Hide => {
                    self.update_list_entry(Some(app), Some(IndexType::End), true, query);
                    Some(OsRequest::HideRunning(app.clone()))
                },
                ActionType::Quit => {
                    self.update_list_entry(Some(app), None, true, query);
                    Some(OsRequest::QuitRunning(app.clone()))
                },
            }
        } else {
            if let ActionType::Activate = action_type {
                self.update_list_entry(Some(app), Some(IndexType::Start), true, query);
                Some(OsRequest::Launch(app.clone()))
            } else {
                None
            }
        }
    }

    /// Upsert, remove, or mark an entry, optionally resetting the selection
    /// and the query: the ordered-list mutation behind launch/close/activate
    /// messages and local actions.
    ///
    /// With a placement, any prior entry with the entry's name is removed and
    /// the entry is inserted at the placement's position; without one, the
    /// prior entry is only marked as not running. With `reset`, the selection
    /// returns to the top and the query is cleared.
    pub fn update_list_entry(
        &mut self,
        app: Option<&App>,
        index_type: Option<IndexType>,
        reset: bool,
        query: &mut String,
    )
        requires
            old(self).well_formed(),
        ensures
            final(self).well_formed(),
            final(self).list.deep_view() == match (app, index_type) {
                (Some(a), Some(it)) => {
                    let removed = remove_first_name(old(self).list.deep_view(), a@.name);
                    removed.insert(
                        spec_index_from(removed.len(), old(self).index as nat, it) as int,
                        a@,
                    )
                },
                (Some(a), None) => mark_not_running(old(self).list.deep_view(), a@.name),
                (None, _) => old(self).list.deep_view(),
            },
            match (app, index_type) {
                (Some(a), Some(IndexType::Start)) => final(self).list.deep_view() == upsert_front(
                    old(self).list.deep_view(),
                    a@,
                ),
                _ => true,
            },
            final(self).index == if reset {
                0int
            } else {
                old(self).index as int
            },
            final(query)@ == if reset {
                Seq::<char>::empty()
            } else {
                old(query)@
            },
            final(self).loading == old(self).loading,
    {
        let ghost l0 = self.list.deep_view();
        if let Some(app) = app {
            let existing = Self::position_of_name(&self.list, &app.name);
            proof {
                lemma_find_name(l0, app@.name);
            }
            if let Some(existing_app_index) = existing {
                if index_type.is_some() {
                    let ghost v0 = self.list@;
                    self.list.remove(existing_app_index);
                    proof {
                        let i = existing_app_index as int;
                        v0.remove_ensures(i);
                        l0.remove_ensures(i);
                        assert forall|j: int| 0 <= j < self.list.deep_view().len() implies self
                            .list.deep_view()[j] == l0.remove(i)[j] by {
                            if j < i {
                                assert(v0.remove(i)[j] == v0[j]);
                                assert(l0.remove(i)[j] == l0[j]);
                            } else {
                                assert(v0.remove(i)[j] == v0[j + 1]);
                                assert(l0.remove(i)[j] == l0[j + 1]);
                            }
                        }
                        assert(self.list.deep_view() =~= remove_first_name(l0, app@.name));
                    }
                } else {
                    let ghost v0 = self.list@;
                    self.list[existing_app_index].pid = 0;
                    proof {
                        let i = existing_app_index as int;
                        assert forall|j: int| 0 <= j < self.list.deep_view().len() implies self
                            .list.deep_view()[j] == mark_not_running(l0, app@.name)[j] by {
                            if j != i {
                                assert(self.list@[j] == v0[j]);
                            }
                        }
                        assert(self.list.deep_view() =~= mark_not_running(l0, app@.name));
                    }
                }
            }
            if let Some(index_type) = index_type {
                assert(self.list.deep_view() =~= remove_first_name(l0, app@.name));
                let ghost removed = self.list.deep_view();
                let ghost v1 = self.list@;
                let target_index = Self::get_index_from_type(&self.list, self.index, index_type);
                proof {
                    let len = self.list@.len() as nat;
                    let cur = self.index as nat;
                    match index_type {
                        IndexType::Next => {
                            if len > 0 {
                                vstd::arithmetic::div_mod::lemma_mod_bound(
                                    cur as int + 1,
                                    len as int,
                                );
                                assert(spec_index_from(len, cur, index_type) == ((cur as int + 1)
                                    % (len as int)) as nat);
                            }
                        },
                        IndexType::Previous => {
                            assert(cur <= l0.len());
                            assert(l0.len() <= len + 1);
                        },
                        _ => {},
                    }
                    assert(spec_index_from(len, cur, index_type) <= len);
                }
                assert(target_index <= self.list.len());
                let cloned = app.clone();
                self.list.insert(target_index, cloned);
                proof {
                    let t = target_index as int;
                    v1.insert_ensures(t, cloned);
                    removed.insert_ensures(t, app@);
                    assert forall|j: int| 0 <= j < self.list.deep_view().len() implies self
                        .list.deep_view()[j] == removed.insert(t, app@)[j] by {
                        if j < t {
                            assert(v1.insert(t, cloned)[j] == v1[j]);
                            assert(removed.insert(t, app@)[j] == removed[j]);
                        } else if j == t {
                            assert(v1.insert(t, cloned)[j] == cloned);
                            assert(removed.insert(t, app@)[j] == app@);
                        } else {
                            assert(v1.insert(t, cloned)[j] == v1[j - 1]);
                            assert(removed.insert(t, app@)[j] == removed[j - 1]);
                        }
                    }
                    assert(self.list.deep_view() =~= removed.insert(t, app@));
                    if t == 0 {
                        assert(removed.insert(0, app@) =~= seq![app@] + removed);
                    }
                }
            }
        }
        if reset {
            self.index = 0;
            *query = String::new();
        }
    }
}

impl Default for Applications {
    /// Same as [`Applications::new`]: empty, selection at the top, loading.
    fn default() -> (r: Self)
        ensures
            r.list@.len() == 0,
            r.index == 0,
            r.loading,
    {
        Applications::new()
    }
}

} // verus!
