//! The entry type reported by the helper process and the intents that flow
//! through the command bus.

use vstd::prelude::*;

verus! {

/// One application or window entry. `pid == 0` marks an entry that is not
/// currently running but can still be launched from `path`.
#[derive(Debug, PartialEq, Eq)]
pub struct App {
    /// Display name; the stable identity key within a session.
    pub name: String,
    /// OS process identifier; 0 means "not currently running".
    pub pid: u32,
    /// Filesystem location, used to launch a non-running entry.
    pub path: String,
    /// Reference to the entry's icon asset.
    pub icon: String,
}

/// Mathematical model of an [`App`]: each string as its character sequence.
pub ghost struct AppView {
    pub name: Seq<char>,
    pub pid: u32,
    pub path: Seq<char>,
    pub icon: Seq<char>,
}

impl View for App {
    type V = AppView;

    open spec fn view(&self) -> AppView {
        AppView { name: self.name@, pid: self.pid, path: self.path@, icon: self.icon@ }
    }
}

impl DeepView for App {
    type V = AppView;

    open spec fn deep_view(&self) -> AppView {
        self.view()
    }
}

impl Clone for App {
    fn clone(&self) -> (r: Self)
        ensures
            r@ == self@,
    {
        App {
            name: self.name.clone(),
            pid: self.pid,
            path: self.path.clone(),
            icon: self.icon.clone(),
        }
    }
}

/// An element-for-element copy of a list of entries.
pub fn clone_entries(v: &Vec<App>) -> (r: Vec<App>)
    ensures
        r.deep_view() == v.deep_view(),
        r@.len() == v@.len(),
{
    let mut r: Vec<App> = Vec::new();
    let mut i: usize = 0;
    while i < v.len()
        invariant
            0 <= i <= v@.len(),
            r@.len() == i,
            forall|k: int| 0 <= k < i ==> r@[k]@ == v@[k]@,
        decreases v@.len() - i,
    {
        r.push(v[i].clone());
        i += 1;
    }
    assert(r.deep_view() =~= v.deep_view());
    r
}

/// A decoded message from the helper process.
#[derive(Debug, PartialEq, Eq)]
pub enum SocketEvent {
    /// The full list of known entries; replaces the registry wholesale.
    List(Vec<App>),
    /// An application was launched.
    Launch(App),
    /// An application was closed.
    Close(App),
    /// An application was brought to the foreground.
    Activate(App),
}

/// Mathematical model of a [`SocketEvent`].
pub ghost enum SocketEventView {
    List(Seq<AppView>),
    Launch(AppView),
    Close(AppView),
    Activate(AppView),
}

impl DeepView for SocketEvent {
    type V = SocketEventView;

    open spec fn deep_view(&self) -> SocketEventView {
        match self {
            SocketEvent::List(apps) => SocketEventView::List(apps.deep_view()),
            SocketEvent::Launch(app) => SocketEventView::Launch(app.deep_view()),
            SocketEvent::Close(app) => SocketEventView::Close(app.deep_view()),
            SocketEvent::Activate(app) => SocketEventView::Activate(app.deep_view()),
        }
    }
}

/// A high-level intent produced by the global input capture.
#[derive(Debug, Clone, Copy, PartialEq, Eq, Structural)]
pub enum HotkeyEvent {
    /// Create and focus the switcher window, pre-selecting the entry at the
    /// carried offset from the top.
    ShowWindow(usize),
    /// Hide the switcher window (and maybe activate the selection first).
    HideWindow,
    /// Hide the currently selected application.
    HideApplication,
    /// Quit the currently selected application.
    QuitApplication,
}

/// An intent produced by the tray menu.
#[derive(Debug, Clone, Copy, PartialEq, Eq, Structural)]
pub enum TrayEvent {
    Settings,
    About,
    Quit,
}

/// One intent on the command bus: a closed union over all producers.
#[derive(Debug, PartialEq, Eq)]
pub enum EventType {
    HotkeyEvent(HotkeyEvent),
    TrayEvent(TrayEvent),
    SocketEvent(SocketEvent),
}

/// Mathematical model of an [`EventType`].
pub ghost enum EventTypeView {
    HotkeyEvent(HotkeyEvent),
    TrayEvent(TrayEvent),
    SocketEvent(SocketEventView),
}

impl DeepView for EventType {
    type V = EventTypeView;

    open spec fn deep_view(&self) -> EventTypeView {
        match self {
            EventType::HotkeyEvent(e) => EventTypeView::HotkeyEvent(*e),
            EventType::TrayEvent(e) => EventTypeView::TrayEvent(*e),
            EventType::SocketEvent(e) => EventTypeView::SocketEvent(e.deep_view()),
        }
    }
}

} // verus!
