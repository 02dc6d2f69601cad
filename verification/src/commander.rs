//! The command bus and its dispatch: a single ordered queue of intents,
//! drained in FIFO order by one consumer, whose handlers mutate the
//! registry and name the side effects that remain for the shell.

use vstd::prelude::*;

use crate::applications::{
    ActionType, Applications, IndexType, OsRequest, OsRequestView, mark_not_running,
    spec_execute_action, upsert_front,
};
use crate::events::{EventType, EventTypeView, HotkeyEvent, SocketEvent, SocketEventView, TrayEvent};
use crate::hotkey::{EventHandler, Key, flags_step, is_trigger_key, keydown_step, trigger_signal};

verus! {

/// A side effect that a handler decided on; carried out by the unverified
/// shell around the library.
#[derive(Debug, PartialEq, Eq)]
pub enum Effect {
    /// Create/focus the switcher window, pre-selecting the entry at the
    /// carried offset.
    ShowWindow(usize),
    /// Hide/destroy the switcher window.
    HideWindow,
    /// An OS-level action against an entry.
    Os(OsRequest),
    /// Open the configuration file in an editor.
    OpenSettings,
    /// Open the project page.
    OpenAbout,
    /// Terminate the process.
    QuitProcess,
}

/// Mathematical model of an [`Effect`].
pub ghost enum EffectView {
    ShowWindow(usize),
    HideWindow,
    Os(OsRequestView),
    OpenSettings,
    OpenAbout,
    QuitProcess,
}

impl DeepView for Effect {
    type V = EffectView;

    open spec fn deep_view(&self) -> EffectView {
        match self {
            Effect::ShowWindow(offset) => EffectView::ShowWindow(*offset),
            Effect::HideWindow => EffectView::HideWindow,
            Effect::Os(req) => EffectView::Os(req.deep_view()),
            Effect::OpenSettings => EffectView::OpenSettings,
            Effect::OpenAbout => EffectView::OpenAbout,
            Effect::QuitProcess => EffectView::QuitProcess,
        }
    }
}

/// The effects an action's remaining OS request amounts to.
pub open spec fn os_effects(os: Option<OsRequestView>) -> Seq<EffectView> {
    match os {
        Some(o) => seq![EffectView::Os(o)],
        None => Seq::empty(),
    }
}

/// What handling `HideWindow` does to the list, and the effects it emits.
/// When neither key latch is set (`auto_activate`), the currently selected
/// entry is first activated, as if by an explicit activate action; then
/// the window is hidden. The selection and the query are reset either way.
pub open spec fn spec_hide_window(
    l0: Seq<crate::events::AppView>,
    idx: nat,
    q: Seq<char>,
    auto_activate: bool,
) -> (Seq<crate::events::AppView>, Seq<EffectView>) {
    if auto_activate {
        let (l1, _i1, _q1, os) = spec_execute_action(l0, idx, q, ActionType::Activate);
        (l1, os_effects(os) + seq![EffectView::HideWindow])
    } else {
        (l0, seq![EffectView::HideWindow])
    }
}

/// What handling one hotkey intent does: the new list, selection and
/// query, and the effects emitted, in order.
pub open spec fn spec_handle_hotkey(
    l0: Seq<crate::events::AppView>,
    idx: nat,
    q: Seq<char>,
    escape_latched: bool,
    space_latched: bool,
    e: HotkeyEvent,
) -> (Seq<crate::events::AppView>, nat, Seq<char>, Seq<EffectView>) {
    match e {
        HotkeyEvent::ShowWindow(offset) => (l0, idx, q, seq![EffectView::ShowWindow(offset)]),
        HotkeyEvent::HideWindow => {
            let (l1, effects) = spec_hide_window(l0, idx, q, !escape_latched && !space_latched);
            (l1, 0, Seq::empty(), effects)
        },
        HotkeyEvent::HideApplication => {
            let (l1, i1, q1, os) = spec_execute_action(l0, idx, q, ActionType::Hide);
            (l1, i1, q1, os_effects(os))
        },
        HotkeyEvent::QuitApplication => {
            let (l1, i1, q1, os) = spec_execute_action(l0, idx, q, ActionType::Quit);
            (l1, i1, q1, os_effects(os))
        },
    }
}

/// What handling one tray intent does: tray intents only emit effects.
pub open spec fn spec_handle_tray(e: TrayEvent) -> Seq<EffectView> {
    match e {
        TrayEvent::Settings => seq![EffectView::OpenSettings],
        TrayEvent::About => seq![EffectView::OpenAbout],
        TrayEvent::Quit => seq![EffectView::QuitProcess],
    }
}

/// What handling one helper message does: the new list, selection,
/// loading flag and query. A full list replaces the registry wholesale and
/// ends loading; launch and activate upsert the entry at the front; close
/// marks the entry as not running so it stays listed as launchable.
pub open spec fn spec_handle_socket(
    l0: Seq<crate::events::AppView>,
    idx: nat,
    loading: bool,
    q: Seq<char>,
    e: SocketEventView,
) -> (Seq<crate::events::AppView>, nat, bool, Seq<char>) {
    match e {
        SocketEventView::List(apps) => (apps, 0, false, q),
        SocketEventView::Launch(a) => (upsert_front(l0, a), idx, loading, q),
        SocketEventView::Activate(a) => (upsert_front(l0, a), idx, loading, q),
        SocketEventView::Close(a) => (mark_not_running(l0, a.name), idx, loading, q),
    }
}

/// What handling one intent of any producer does.
pub open spec fn spec_handle_event(
    l0: Seq<crate::events::AppView>,
    idx: nat,
    loading: bool,
    q: Seq<char>,
    escape_latched: bool,
    space_latched: bool,
    e: EventTypeView,
) -> (Seq<crate::events::AppView>, nat, bool, Seq<char>, Seq<EffectView>) {
    match e {
        EventTypeView::HotkeyEvent(he) => {
            let (l1, i1, q1, effects) = spec_handle_hotkey(
                l0,
                idx,
                q,
                escape_latched,
                space_latched,
                he,
            );
            (l1, i1, loading, q1, effects)
        },
        EventTypeView::TrayEvent(te) => (l0, idx, loading, q, spec_handle_tray(te)),
        EventTypeView::SocketEvent(se) => {
            let (l1, i1, loading1, q1) = spec_handle_socket(l0, idx, loading, q, se);
            (l1, i1, loading1, q1, Seq::empty())
        },
    }
}

/// Handle one hotkey intent against the registry, as
/// [`spec_handle_hotkey`] says. The two latch values come from the
/// capture state at the moment the gesture ended.
pub fn handle_hotkey_event(
    apps: &mut Applications,
    query: &mut String,
    escape_latched: bool,
    space_latched: bool,
    event: HotkeyEvent,
) -> (r: Vec<Effect>)
    requires
        old(apps).well_formed(),
    ensures
        final(apps).well_formed(),
        final(apps).loading == old(apps).loading,
        ({
            let (l1, i1, q1, effects) = spec_handle_hotkey(
                old(apps).list.deep_view(),
                old(apps).index as nat,
                old(query)@,
                escape_latched,
                space_latched,
                event,
            );
            &&& final(apps).list.deep_view() == l1
            &&& final(apps).index == i1
            &&& final(query)@ == q1
            &&& r.deep_view() == effects
        }),
{
    match event {
        HotkeyEvent::ShowWindow(offset) => {
            let mut effects: Vec<Effect> = Vec::new();
            effects.push(Effect::ShowWindow(offset));
            proof {
                assert(effects.deep_view() =~= seq![EffectView::ShowWindow(offset)]);
            }
            effects
        },
        HotkeyEvent::HideWindow => {
            let mut effects: Vec<Effect> = Vec::new();
            if !escape_latched && !space_latched {
                if let Some(req) = apps.execute_action(query, ActionType::Activate) {
                    effects.push(Effect::Os(req));
                }
            }
            apps.index = 0;
            *query = String::new();
            effects.push(Effect::HideWindow);
            proof {
                let (_l1, eff) = spec_hide_window(
                    old(apps).list.deep_view(),
                    old(apps).index as nat,
                    old(query)@,
                    !escape_latched && !space_latched,
                );
                assert(effects.deep_view() =~= eff);
            }
            effects
        },
        HotkeyEvent::HideApplication => {
            let r = apps.execute_action(query, ActionType::Hide);
            let mut effects: Vec<Effect> = Vec::new();
            match r {
                Some(req) => {
                    effects.push(Effect::Os(req));
                },
                None => {},
            }
            proof {
                let (_l1, _i1, _q1, os) = spec_execute_action(
                    old(apps).list.deep_view(),
                    old(apps).index as nat,
                    old(query)@,
                    ActionType::Hide,
                );
                assert(effects.deep_view() =~= os_effects(os));
            }
            effects
        },
        HotkeyEvent::QuitApplication => {
            let r = apps.execute_action(query, ActionType::Quit);
            let mut effects: Vec<Effect> = Vec::new();
            match r {
                Some(req) => {
                    effects.push(Effect::Os(req));
                },
                None => {},
            }
            proof {
                let (_l1, _i1, _q1, os) = spec_execute_action(
                    old(apps).list.deep_view(),
                    old(apps).index as nat,
                    old(query)@,
                    ActionType::Quit,
                );
                assert(effects.deep_view() =~= os_effects(os));
            }
            effects
        },
    }
}

/// Handle one tray intent, as [`spec_handle_tray`] says.
pub fn handle_tray_event(event: TrayEvent) -> (r: Vec<Effect>)
    ensures
        r.deep_view() == spec_handle_tray(event),
{
    let mut effects: Vec<Effect> = Vec::new();
    match event {
        TrayEvent::Settings => effects.push(Effect::OpenSettings),
        TrayEvent::About => effects.push(Effect::OpenAbout),
        TrayEvent::Quit => effects.push(Effect::QuitProcess),
    }
    proof {
        assert(effects.deep_view() =~= spec_handle_tray(event));
    }
    effects
}

/// Handle one decoded helper message against the registry, as
/// [`spec_handle_socket`] says; helper messages emit no effects.
pub fn handle_socket_event(apps: &mut Applications, query: &mut String, event: SocketEvent)
    requires
        old(apps).well_formed(),
    ensures
        final(apps).well_formed(),
        ({
            let (l1, i1, loading1, q1) = spec_handle_socket(
                old(apps).list.deep_view(),
                old(apps).index as nat,
                old(apps).loading,
                old(query)@,
                event.deep_view(),
            );
            &&& final(apps).list.deep_view() == l1
            &&& final(apps).index == i1
            &&& final(apps).loading == loading1
            &&& final(query)@ == q1
        }),
{
    match event {
        SocketEvent::List(list) => {
            apps.update_list(list);
        },
        SocketEvent::Launch(app) => {
            apps.update_list_entry(Some(&app), Some(IndexType::Start), false, query);
        },
        SocketEvent::Activate(app) => {
            apps.update_list_entry(Some(&app), Some(IndexType::Start), false, query);
        },
        SocketEvent::Close(app) => {
            apps.update_list_entry(Some(&app), None, false, query);
        },
    }
}

/// Dispatch one intent to its handler, as [`spec_handle_event`] says.
pub fn handle_event(
    apps: &mut Applications,
    query: &mut String,
    escape_latched: bool,
    space_latched: bool,
    event: EventType,
) -> (r: Vec<Effect>)
    requires
        old(apps).well_formed(),
    ensures
        final(apps).well_formed(),
        ({
            let (l1, i1, loading1, q1, effects) = spec_handle_event(
                old(apps).list.deep_view(),
                old(apps).index as nat,
                old(apps).loading,
                old(query)@,
                escape_latched,
                space_latched,
                event.deep_view(),
            );
            &&& final(apps).list.deep_view() == l1
            &&& final(apps).index == i1
            &&& final(apps).loading == loading1
            &&& final(query)@ == q1
            &&& r.deep_view() == effects
        }),
{
    match event {
        EventType::HotkeyEvent(e) => handle_hotkey_event(
            apps,
            query,
            escape_latched,
            space_latched,
            e,
        ),
        EventType::TrayEvent(e) => handle_tray_event(e),
        EventType::SocketEvent(e) => {
            handle_socket_event(apps, query, e);
            let effects: Vec<Effect> = Vec::new();
            proof {
                assert(effects.deep_view() =~= Seq::<EffectView>::empty());
            }
            effects
        },
    }
}

/// The command bus: a single unbounded, multi-producer, single-consumer
/// ordered queue of intents. Producers enqueue without blocking; the one
/// consumer drains everything queued, in FIFO order, each tick.
pub struct Commander {
    queue: Vec<EventType>,
}

impl View for Commander {
    type V = Seq<EventType>;

    closed spec fn view(&self) -> Seq<EventType> {
        self.queue@
    }
}

impl Commander {
    /// An empty bus.
    pub fn new() -> (r: Self)
        ensures
            r@ == Seq::<EventType>::empty(),
    {
        Commander { queue: Vec::new() }
    }

    /// Enqueue one intent; never blocks, never fails, never reorders.
    pub fn send(&mut self, event: EventType)
        ensures
            final(self)@ == old(self)@.push(event),
    {
        self.queue.push(event);
    }

    /// Take every queued intent, in the order it was enqueued, leaving the
    /// bus empty: the per-tick FIFO drain.
    pub fn drain(&mut self) -> (r: Vec<EventType>)
        ensures
            r@ == old(self)@,
            final(self)@ == Seq::<EventType>::empty(),
    {
        let mut drained: Vec<EventType> = Vec::new();
        core::mem::swap(&mut drained, &mut self.queue);
        drained
    }
}

/// Latch clearing, first half: while a gesture is active, a key-down of
/// anything but Escape, Space or a trigger key, followed by the release of
/// the trigger, ends in a `HideWindow` whose handling runs the
/// auto-activate branch (neither latch is set).
pub proof fn lemma_latch_clearing_activates(
    h: EventHandler,
    key: Key,
    flags: u64,
    release_key: Key,
    release_cmd: bool,
    l0: Seq<crate::events::AppView>,
    idx: nat,
    q: Seq<char>,
)
    requires
        h.gesture_active,
        key != Key::Escape,
        key != Key::Space,
        !is_trigger_key(h, key),
        trigger_signal(h, release_key, release_cmd) matches Some((active, _)) && !active,
    ensures
        ({
            let (h1, _d) = keydown_step(h, key, flags);
            let (h2, ev) = flags_step(h1, release_key, release_cmd);
            &&& ev == Some(HotkeyEvent::HideWindow)
            &&& !h2.escape_latched && !h2.space_latched
            &&& spec_handle_hotkey(
                l0,
                idx,
                q,
                h2.escape_latched,
                h2.space_latched,
                HotkeyEvent::HideWindow,
            ) == {
                let (l1, effects) = spec_hide_window(l0, idx, q, true);
                (l1, 0nat, Seq::<char>::empty(), effects)
            }
        }),
{
}

/// Latch clearing, second half: pressing Escape (or Space) during the
/// gesture latches it, and the `HideWindow` from the gesture release then
/// skips the auto-activate branch.
pub proof fn lemma_latch_suppresses_activate(
    h: EventHandler,
    key: Key,
    flags: u64,
    release_key: Key,
    release_cmd: bool,
    l0: Seq<crate::events::AppView>,
    idx: nat,
    q: Seq<char>,
)
    requires
        h.gesture_active,
        key == Key::Escape || key == Key::Space,
        trigger_signal(h, release_key, release_cmd) matches Some((active, _)) && !active,
    ensures
        ({
            let (h1, _d) = keydown_step(h, key, flags);
            let (h2, ev) = flags_step(h1, release_key, release_cmd);
            &&& ev == Some(HotkeyEvent::HideWindow)
            &&& h2.escape_latched || h2.space_latched
            &&& spec_handle_hotkey(
                l0,
                idx,
                q,
                h2.escape_latched,
                h2.space_latched,
                HotkeyEvent::HideWindow,
            ) == (l0, 0nat, Seq::<char>::empty(), seq![EffectView::HideWindow])
        }),
{
}

} // verus!
