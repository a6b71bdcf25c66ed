//! The windows of a running app: what each event does to them.

use crate::backend::{actual_port, local_page, port_in, port_page, read_port};
use crate::config::ExtraWindowSettings;
use crate::ipc::{WindowRequest, WindowView};
use crate::json::{json_text, quoted, string_value};
use crate::reply::{law_replies_as_written, single, single_text, written};
use crate::text::{concat3, decimal, maybe, same_text};
use crate::urls::{extra_url, resolve_extra_url};
use std::collections::HashMap;
use vstd::prelude::*;
use vstd::string::*;

verus! {

broadcast use vstd::std_specs::hash::group_hash_axioms;

// ---------------------------------------------------------------------------
// Scripts
// ---------------------------------------------------------------------------

/// The script that hands a reply to a page.
pub open spec fn reply_script(response: Seq<char>) -> Seq<char> {
    "window.brix && window.brix._handle("@ + quoted(response) + ")"@
}

/// The script that hands a reply of the sidecar to a page.
pub open spec fn extension_script(response: Seq<char>) -> Seq<char> {
    "window.brix && window.brix._handleExtension("@ + quoted(response) + ")"@
}

/// The script that tells a page of an update; the payload is JSON.
pub open spec fn update_script(payload: Seq<char>) -> Seq<char> {
    "window.brix && window.brix._handleEvent('update', "@ + payload + ")"@
}

/// The script that tells a page of a click on an entry of the tray menu.
pub open spec fn menu_script(action: Seq<char>) -> Seq<char> {
    "window.brix && window.brix._handleEvent('tray_menu', "@ + single_text("id"@, quoted(action))
        + ")"@
}

fn quote(text: &str) -> (r: String)
    ensures
        r@ == quoted(text@),
{
    json_text(&string_value(text))
}

fn make_reply_script(response: &str) -> (r: String)
    ensures
        r@ == reply_script(response@),
{
    let text = quote(response);
    concat3("window.brix && window.brix._handle(", text.as_str(), ")")
}

fn make_extension_script(response: &str) -> (r: String)
    ensures
        r@ == extension_script(response@),
{
    let text = quote(response);
    concat3("window.brix && window.brix._handleExtension(", text.as_str(), ")")
}

fn make_update_script(payload: &str) -> (r: String)
    ensures
        r@ == update_script(payload@),
{
    concat3("window.brix && window.brix._handleEvent('update', ", payload, ")")
}

fn make_menu_script(action: &str) -> (r: String)
    ensures
        r@ == menu_script(action@),
{
    let text = json_text(&single("id", string_value(action)));
    concat3("window.brix && window.brix._handleEvent('tray_menu', ", text.as_str(), ")")
}

// ---------------------------------------------------------------------------
// Windows, events and actions
// ---------------------------------------------------------------------------

/// A window that is to be made.
#[derive(Debug)]
pub struct WindowPlan {
    pub title: String,
    pub width: u32,
    pub height: u32,
    pub url: String,
}

/// A window that is to be made, as plain values.
#[verifier::ext_equal]
pub ghost struct PlanView {
    pub title: Seq<char>,
    pub width: u32,
    pub height: u32,
    pub url: Seq<char>,
}

impl View for WindowPlan {
    type V = PlanView;

    open spec fn view(&self) -> PlanView {
        PlanView { title: self.title@, width: self.width, height: self.height, url: self.url@ }
    }
}

/// What happens to the windows.
#[derive(Debug)]
pub enum HostEvent {
    /// A window is to be closed, by its user or by its page.
    Close(u64),
    /// A page gets the reply to a request.
    Reply { window: u64, response: String },
    /// A page gets a reply of the sidecar.
    ExtensionReply { window: u64, response: String },
    /// A page asks for a window; the response is for when it is there.
    OpenWindow { request: WindowRequest, response: String },
    /// A window that a page asked for is there.
    WindowOpened { window: u64, response: String },
    /// The page of a window has loaded.
    PageLoaded(u64),
    /// The main page has loaded.
    CloseSplash,
    /// A page hides the splash window.
    HideSplash,
    /// The tray icon is clicked.
    TrayClick,
    /// An entry of the tray menu is clicked.
    TrayMenu(String),
    /// The pages are told of an update.
    Update(String),
    /// The wait for the backend is over; with the content of its port file.
    BackendReady { port_file: Option<String> },
}

/// What happens to the windows, as plain values.
#[verifier::ext_equal]
pub ghost enum EventView {
    Close(u64),
    Reply { window: u64, response: Seq<char> },
    ExtensionReply { window: u64, response: Seq<char> },
    OpenWindow { request: WindowView, response: Seq<char> },
    WindowOpened { window: u64, response: Seq<char> },
    PageLoaded(u64),
    CloseSplash,
    HideSplash,
    TrayClick,
    TrayMenu(Seq<char>),
    Update(Seq<char>),
    BackendReady { port_file: Option<Seq<char>> },
}

impl View for HostEvent {
    type V = EventView;

    open spec fn view(&self) -> EventView {
        match self {
            HostEvent::Close(window) => EventView::Close(*window),
            HostEvent::Reply { window, response } => EventView::Reply {
                window: *window,
                response: response@,
            },
            HostEvent::ExtensionReply { window, response } => EventView::ExtensionReply {
                window: *window,
                response: response@,
            },
            HostEvent::OpenWindow { request, response } => EventView::OpenWindow {
                request: request@,
                response: response@,
            },
            HostEvent::WindowOpened { window, response } => EventView::WindowOpened {
                window: *window,
                response: response@,
            },
            HostEvent::PageLoaded(window) => EventView::PageLoaded(*window),
            HostEvent::CloseSplash => EventView::CloseSplash,
            HostEvent::HideSplash => EventView::HideSplash,
            HostEvent::TrayClick => EventView::TrayClick,
            HostEvent::TrayMenu(action) => EventView::TrayMenu(action@),
            HostEvent::Update(payload) => EventView::Update(payload@),
            HostEvent::BackendReady { port_file } => EventView::BackendReady {
                port_file: maybe(*port_file),
            },
        }
    }
}

/// What the host does with the windows.
#[derive(Debug)]
pub enum HostAction {
    ShowMain,
    HideMain,
    /// End the app.
    Exit,
    /// Release a secondary window.
    Drop(u64),
    /// Run a script in the page of a window.
    Run { window: u64, script: String },
    /// Make a window, and keep the response until it is there.
    Create { plan: WindowPlan, response: String },
    /// Load a page into the main window.
    Load(String),
    /// Release the splash window.
    DropSplash,
}

/// What the host does with the windows, as plain values.
#[verifier::ext_equal]
pub ghost enum DoneView {
    ShowMain,
    HideMain,
    Exit,
    Drop(u64),
    Run { window: u64, script: Seq<char> },
    Create { plan: PlanView, response: Seq<char> },
    Load(Seq<char>),
    DropSplash,
}

impl View for HostAction {
    type V = DoneView;

    open spec fn view(&self) -> DoneView {
        match self {
            HostAction::ShowMain => DoneView::ShowMain,
            HostAction::HideMain => DoneView::HideMain,
            HostAction::Exit => DoneView::Exit,
            HostAction::Drop(window) => DoneView::Drop(*window),
            HostAction::Run { window, script } => DoneView::Run {
                window: *window,
                script: script@,
            },
            HostAction::Create { plan, response } => DoneView::Create {
                plan: plan@,
                response: response@,
            },
            HostAction::Load(url) => DoneView::Load(url@),
            HostAction::DropSplash => DoneView::DropSplash,
        }
    }
}

/// Actions as plain values.
pub open spec fn actions_view(actions: Seq<HostAction>) -> Seq<DoneView> {
    actions.map_values(|action: HostAction| action@)
}

/// What the windows are told at the start, and is not changed after it.
#[derive(Debug)]
pub struct HostSettings {
    pub main: u64,
    pub app_name: String,
    pub width: u32,
    pub height: u32,
    pub auto_hide: bool,
    pub minimize_to_tray: bool,
    pub has_tray: bool,
    /// The port that the settings of the backend name.
    pub port: Option<u16>,
}

/// The windows of a running app.
pub struct Host {
    settings: HostSettings,
    extras: Vec<u64>,
    waiting: HashMap<u64, String>,
    splash: bool,
    entry_url: String,
    backend_port: Option<u16>,
}

/// The windows of a running app, as plain values.
#[verifier::ext_equal]
pub ghost struct HostView {
    pub main: u64,
    pub app_name: Seq<char>,
    pub width: u32,
    pub height: u32,
    pub auto_hide: bool,
    pub minimize_to_tray: bool,
    pub has_tray: bool,
    pub port: Option<u16>,
    /// The secondary windows, each once.
    pub extras: Seq<u64>,
    /// The responses that wait until the page of a window has loaded.
    pub waiting: Map<u64, Seq<char>>,
    pub splash: bool,
    pub entry_url: Seq<char>,
    pub backend_port: Option<u16>,
}

impl HostView {
    /// True for windows that are told apart: each secondary window is there
    /// once, and none is the main window.
    pub open spec fn wf(self) -> bool {
        self.extras.no_duplicates() && !self.extras.contains(self.main)
    }

    /// True for a window that is there.
    pub open spec fn has(self, window: u64) -> bool {
        window == self.main || self.extras.contains(window)
    }
}

impl View for Host {
    type V = HostView;

    closed spec fn view(&self) -> HostView {
        HostView {
            main: self.settings.main,
            app_name: self.settings.app_name@,
            width: self.settings.width,
            height: self.settings.height,
            auto_hide: self.settings.auto_hide,
            minimize_to_tray: self.settings.minimize_to_tray,
            has_tray: self.settings.has_tray,
            port: self.settings.port,
            extras: self.extras@,
            waiting: self.waiting@.map_values(|response: String| response@),
            splash: self.splash,
            entry_url: self.entry_url@,
            backend_port: self.backend_port,
        }
    }
}

// ---------------------------------------------------------------------------
// What an event does
// ---------------------------------------------------------------------------

/// A script in one window, if the window is there.
pub open spec fn run_in(host: HostView, window: u64, script: Seq<char>) -> Seq<DoneView> {
    if host.has(window) {
        seq![DoneView::Run { window, script }]
    } else {
        Seq::empty()
    }
}

/// A script in every window, the main one first.
pub open spec fn run_everywhere(host: HostView, script: Seq<char>) -> Seq<DoneView> {
    seq![DoneView::Run { window: host.main, script }] + host.extras.map_values(
        |window: u64| DoneView::Run { window, script },
    )
}

/// The low 32 bits of a size.
pub open spec fn low_bits(size: Option<u64>, other: u32) -> u32 {
    match size {
        Some(size) => (size % 0x1_0000_0000) as u32,
        None => other,
    }
}

/// The window that a page asks for; what it leaves open is taken from the app.
pub open spec fn requested_window(host: HostView, request: WindowView) -> PlanView {
    PlanView {
        title: match request.title {
            Some(title) => title,
            None => host.app_name,
        },
        width: low_bits(request.width, host.width),
        height: low_bits(request.height, host.height),
        url: extra_url(
            match request.url {
                Some(url) => url,
                None => host.entry_url,
            },
            host.entry_url,
        ),
    }
}

/// The port that the backend is reached at, where the settings name one.
pub open spec fn ready_port(host: HostView, port_file: Option<Seq<char>>) -> Option<u16> {
    match host.port {
        Some(port) => actual_port(port, port_file),
        None => None,
    }
}

/// The windows after an event.
pub open spec fn after(host: HostView, event: EventView) -> HostView {
    match event {
        EventView::Close(window) => if window != host.main && host.extras.contains(window) {
            HostView { extras: host.extras.remove(host.extras.index_of(window)), ..host }
        } else {
            host
        },
        EventView::WindowOpened { window, response } => HostView {
            extras: if host.has(window) {
                host.extras
            } else {
                host.extras.push(window)
            },
            waiting: host.waiting.insert(window, response),
            ..host
        },
        EventView::PageLoaded(window) => HostView {
            waiting: host.waiting.remove(window),
            ..host
        },
        EventView::CloseSplash => HostView { splash: host.splash && !host.auto_hide, ..host },
        EventView::HideSplash => HostView { splash: false, ..host },
        EventView::BackendReady { port_file } => match ready_port(host, port_file) {
            Some(port) => HostView {
                entry_url: local_page(port),
                backend_port: Some(port),
                ..host
            },
            None => host,
        },
        _ => host,
    }
}

/// What is done on an event.
pub open spec fn done(host: HostView, event: EventView) -> Seq<DoneView> {
    match event {
        EventView::Close(window) => if window == host.main {
            if host.minimize_to_tray {
                seq![DoneView::HideMain]
            } else {
                seq![DoneView::Exit]
            }
        } else if host.extras.contains(window) {
            seq![DoneView::Drop(window)]
        } else {
            Seq::empty()
        },
        EventView::Reply { window, response } => run_in(host, window, reply_script(response)),
        EventView::ExtensionReply { window, response } => run_in(
            host,
            window,
            extension_script(response),
        ),
        EventView::OpenWindow { request, response } => seq![
            DoneView::Create { plan: requested_window(host, request), response },
        ],
        EventView::WindowOpened { .. } => Seq::empty(),
        EventView::PageLoaded(window) => if host.waiting.contains_key(window) {
            run_in(host, window, reply_script(host.waiting[window]))
        } else {
            Seq::empty()
        },
        EventView::CloseSplash => if host.splash && host.auto_hide {
            seq![DoneView::DropSplash]
        } else {
            Seq::empty()
        },
        EventView::HideSplash => if host.splash {
            seq![DoneView::DropSplash]
        } else {
            Seq::empty()
        },
        EventView::TrayClick => if host.has_tray {
            seq![DoneView::ShowMain]
        } else {
            Seq::empty()
        },
        EventView::TrayMenu(action) => if !host.has_tray {
            Seq::empty()
        } else if action == "exit"@ {
            seq![DoneView::Exit]
        } else if action == "show"@ {
            seq![DoneView::ShowMain]
        } else {
            run_everywhere(host, menu_script(action))
        },
        EventView::Update(payload) => run_everywhere(host, update_script(payload)),
        EventView::BackendReady { port_file } => match ready_port(host, port_file) {
            Some(port) => seq![DoneView::Load(local_page(port))],
            None => Seq::empty(),
        },
    }
}

fn truncated(size: Option<u64>, other: u32) -> (r: u32)
    ensures
        r == low_bits(size, other),
{
    match size {
        Some(size) => (size % 0x1_0000_0000) as u32,
        None => other,
    }
}

impl Host {
    /// The windows at the start: the main one alone.
    pub fn new(
        settings: HostSettings,
        splash: bool,
        entry_url: String,
        backend_port: Option<u16>,
    ) -> (host: Host)
        ensures
            host@.main == settings.main,
            host@.app_name == settings.app_name@,
            host@.width == settings.width,
            host@.height == settings.height,
            host@.auto_hide == settings.auto_hide,
            host@.minimize_to_tray == settings.minimize_to_tray,
            host@.has_tray == settings.has_tray,
            host@.port == settings.port,
            host@.extras == Seq::<u64>::empty(),
            host@.waiting == Map::<u64, Seq<char>>::empty(),
            host@.splash == splash,
            host@.entry_url == entry_url@,
            host@.backend_port == backend_port,
            host@.wf(),
    {
        let host = Host {
            settings,
            extras: Vec::new(),
            waiting: HashMap::new(),
            splash,
            entry_url,
            backend_port,
        };
        assert(host@.waiting =~= Map::<u64, Seq<char>>::empty());
        host
    }

    /// Adds a window that was opened at the start, which nobody waits for.
    pub fn add_window(&mut self, window: u64)
        requires
            old(self)@.wf(),
        ensures
            final(self)@ == (HostView {
                extras: if old(self)@.has(window) {
                    old(self)@.extras
                } else {
                    old(self)@.extras.push(window)
                },
                ..old(self)@
            }),
            final(self)@.wf(),
    {
        let known = window == self.settings.main || self.place_of(window) < self.extras.len();
        if !known {
            self.extras.push(window);
        }
        assert(self@ =~= (HostView {
            extras: if old(self)@.has(window) {
                old(self)@.extras
            } else {
                old(self)@.extras.push(window)
            },
            ..old(self)@
        }));
    }

    /// The page that new windows open.
    pub fn entry_url(&self) -> (r: &str)
        ensures
            r@ == self@.entry_url,
    {
        self.entry_url.as_str()
    }

    /// The port of the backend, once it is there.
    pub fn backend_port(&self) -> (r: Option<u16>)
        ensures
            r == self@.backend_port,
    {
        self.backend_port
    }

    fn place_of(&self, window: u64) -> (place: usize)
        ensures
            place <= self@.extras.len(),
            place < self@.extras.len() <==> self@.extras.contains(window),
            place < self@.extras.len() ==> self@.extras[place as int] == window && forall|i: int|
                0 <= i < place ==> self@.extras[i] != window,
            self@.extras.len() == self.extras@.len(),
    {
        let mut i: usize = 0;
        while i < self.extras.len()
            invariant
                i <= self.extras.len(),
                forall|j: int| 0 <= j < i ==> self.extras@[j] != window,
            decreases self.extras.len() - i,
        {
            if self.extras[i] == window {
                return i;
            }
            i += 1;
        }
        i
    }

    fn has_window(&self, window: u64) -> (r: bool)
        ensures
            r == self@.has(window),
    {
        window == self.settings.main || self.place_of(window) < self.extras.len()
    }

    fn run(&self, window: u64, script: String) -> (actions: Vec<HostAction>)
        ensures
            actions_view(actions@) == run_in(self@, window, script@),
    {
        let mut actions: Vec<HostAction> = Vec::new();
        let ghost text = script@;
        if self.has_window(window) {
            actions.push(HostAction::Run { window, script });
        }
        assert(actions_view(actions@) =~= run_in(self@, window, text));
        actions
    }

    fn run_all(&self, script: &str) -> (actions: Vec<HostAction>)
        ensures
            actions_view(actions@) == run_everywhere(self@, script@),
    {
        let mut actions: Vec<HostAction> = Vec::new();
        actions.push(HostAction::Run { window: self.settings.main, script: script.to_owned() });
        let mut i: usize = 0;
        while i < self.extras.len()
            invariant
                i <= self.extras.len(),
                actions@.len() == i + 1,
                actions@[0]@ == (DoneView::Run { window: self.settings.main, script: script@ }),
                forall|k: int|
                    0 <= k < i ==> (#[trigger] actions@[k + 1])@ == (DoneView::Run {
                        window: self.extras@[k],
                        script: script@,
                    }),
            decreases self.extras.len() - i,
        {
            let ghost before = actions@;
            actions.push(HostAction::Run { window: self.extras[i], script: script.to_owned() });
            assert forall|k: int| 0 <= k < i + 1 implies (#[trigger] actions@[k + 1])@ == (
            DoneView::Run { window: self.extras@[k], script: script@ }) by {
                if k < i {
                    assert(actions@[k + 1] == before[k + 1]);
                }
            }
            i += 1;
        }
        proof {
            let all = run_everywhere(self@, script@);
            assert(actions_view(actions@).len() == all.len());
            assert forall|k: int| 0 <= k < all.len() implies actions_view(actions@)[k] == all[k] by {
                if k > 0 {
                    assert(actions@[(k - 1) + 1]@ == (DoneView::Run {
                        window: self.extras@[k - 1],
                        script: script@,
                    }));
                }
            }
            assert(actions_view(actions@) =~= all);
        }
        actions
    }

    fn plan(&self, request: &WindowRequest) -> (plan: WindowPlan)
        ensures
            plan@ == requested_window(self@, request@),
    {
        let title = match &request.title {
            Some(title) => title.as_str().to_owned(),
            None => self.settings.app_name.as_str().to_owned(),
        };
        let url = match &request.url {
            Some(url) => resolve_extra_url(url.as_str(), self.entry_url.as_str()),
            None => resolve_extra_url(self.entry_url.as_str(), self.entry_url.as_str()),
        };
        WindowPlan {
            title,
            width: truncated(request.width, self.settings.width),
            height: truncated(request.height, self.settings.height),
            url,
        }
    }

    fn port_now(&self, port_file: &Option<String>) -> (r: Option<u16>)
        ensures
            r == ready_port(self@, maybe(*port_file)),
    {
        match self.settings.port {
            Some(port) => if port == 0 {
                match port_file {
                    Some(content) => read_port(content.as_str()),
                    None => None,
                }
            } else {
                Some(port)
            },
            None => None,
        }
    }

    fn close(&mut self, window: u64) -> (actions: Vec<HostAction>)
        requires
            old(self)@.wf(),
        ensures
            final(self)@ == after(old(self)@, EventView::Close(window)),
            actions_view(actions@) == done(old(self)@, EventView::Close(window)),
    {
        let mut actions: Vec<HostAction> = Vec::new();
        if window == self.settings.main {
            if self.settings.minimize_to_tray {
                actions.push(HostAction::HideMain);
            } else {
                actions.push(HostAction::Exit);
            }
        } else {
            let place = self.place_of(window);
            if place < self.extras.len() {
                assert(self@.extras.index_of(window) == place);
                self.extras.remove(place);
                actions.push(HostAction::Drop(window));
            }
        }
        assert(self@ =~= after(old(self)@, EventView::Close(window)));
        assert(actions_view(actions@) =~= done(old(self)@, EventView::Close(window)));
        actions
    }

    fn opened(&mut self, window: u64, response: String)
        ensures
            final(self)@ == after(
                old(self)@,
                EventView::WindowOpened { window, response: response@ },
            ),
    {
        let ghost text = response@;
        let known = self.has_window(window);
        self.waiting.insert(window, response);
        if !known {
            self.extras.push(window);
        }
        assert(self@.waiting =~= old(self)@.waiting.insert(window, text));
        assert(self@ =~= after(
            old(self)@,
            EventView::WindowOpened { window, response: text },
        ));
    }

    fn loaded(&mut self, window: u64) -> (actions: Vec<HostAction>)
        ensures
            final(self)@ == after(old(self)@, EventView::PageLoaded(window)),
            actions_view(actions@) == done(old(self)@, EventView::PageLoaded(window)),
    {
        let response = self.waiting.remove(&window);
        assert(self@.waiting =~= old(self)@.waiting.remove(window));
        assert(self@ =~= after(old(self)@, EventView::PageLoaded(window)));
        match response {
            Some(response) => self.run(window, make_reply_script(response.as_str())),
            None => {
                let none: Vec<HostAction> = Vec::new();
                assert(actions_view(none@) =~= done(old(self)@, EventView::PageLoaded(window)));
                none
            },
        }
    }

    fn splash(&mut self, hide: bool) -> (actions: Vec<HostAction>)
        ensures
            final(self)@ == (HostView { splash: old(self)@.splash && !hide, ..old(self)@ }),
            actions_view(actions@) == (if old(self)@.splash && hide {
                seq![DoneView::DropSplash]
            } else {
                Seq::empty()
            }),
    {
        let mut actions: Vec<HostAction> = Vec::new();
        if self.splash && hide {
            self.splash = false;
            actions.push(HostAction::DropSplash);
        }
        assert(self@ =~= (HostView { splash: old(self)@.splash && !hide, ..old(self)@ }));
        assert(actions_view(actions@) =~= (if old(self)@.splash && hide {
            seq![DoneView::DropSplash]
        } else {
            Seq::empty()
        }));
        actions
    }

    fn backend_ready(&mut self, port_file: &Option<String>) -> (actions: Vec<HostAction>)
        ensures
            final(self)@ == after(
                old(self)@,
                EventView::BackendReady { port_file: maybe(*port_file) },
            ),
            actions_view(actions@) == done(
                old(self)@,
                EventView::BackendReady { port_file: maybe(*port_file) },
            ),
    {
        let mut actions: Vec<HostAction> = Vec::new();
        match self.port_now(port_file) {
            Some(port) => {
                self.entry_url = port_page(port);
                self.backend_port = Some(port);
                actions.push(HostAction::Load(port_page(port)));
            },
            None => {},
        }
        assert(self@ =~= after(
            old(self)@,
            EventView::BackendReady { port_file: maybe(*port_file) },
        ));
        assert(actions_view(actions@) =~= done(
            old(self)@,
            EventView::BackendReady { port_file: maybe(*port_file) },
        ));
        actions
    }

    fn tray_menu(&self, action: &str) -> (actions: Vec<HostAction>)
        ensures
            actions_view(actions@) == done(self@, EventView::TrayMenu(action@)),
    {
        let mut actions: Vec<HostAction> = Vec::new();
        if self.settings.has_tray {
            if same_text(action, "exit") {
                actions.push(HostAction::Exit);
            } else if same_text(action, "show") {
                actions.push(HostAction::ShowMain);
            } else {
                let script = make_menu_script(action);
                return self.run_all(script.as_str());
            }
        }
        assert(actions_view(actions@) =~= done(self@, EventView::TrayMenu(action@)));
        actions
    }

    /// Takes an event: gives what is to be done, in order.
    pub fn handle(&mut self, event: HostEvent) -> (actions: Vec<HostAction>)
        requires
            old(self)@.wf(),
        ensures
            final(self)@ == after(old(self)@, event@),
            actions_view(actions@) == done(old(self)@, event@),
            final(self)@.wf(),
    {
        proof {
            law_windows_stay_apart(self@, event@);
        }
        match event {
            HostEvent::Close(window) => self.close(window),
            HostEvent::Reply { window, response } => self.run(
                window,
                make_reply_script(response.as_str()),
            ),
            HostEvent::ExtensionReply { window, response } => self.run(
                window,
                make_extension_script(response.as_str()),
            ),
            HostEvent::OpenWindow { request, response } => {
                let plan = self.plan(&request);
                let mut actions: Vec<HostAction> = Vec::new();
                let ghost text = response@;
                actions.push(HostAction::Create { plan, response });
                assert(actions_view(actions@) =~= done(
                    old(self)@,
                    EventView::OpenWindow { request: request@, response: text },
                ));
                actions
            },
            HostEvent::WindowOpened { window, response } => {
                self.opened(window, response);
                let none: Vec<HostAction> = Vec::new();
                assert(actions_view(none@) =~= Seq::<DoneView>::empty());
                none
            },
            HostEvent::PageLoaded(window) => self.loaded(window),
            HostEvent::CloseSplash => {
                let hide = self.settings.auto_hide;
                self.splash(hide)
            },
            HostEvent::HideSplash => self.splash(true),
            HostEvent::TrayClick => {
                let mut actions: Vec<HostAction> = Vec::new();
                if self.settings.has_tray {
                    actions.push(HostAction::ShowMain);
                }
                assert(actions_view(actions@) =~= done(old(self)@, EventView::TrayClick));
                actions
            },
            HostEvent::TrayMenu(action) => self.tray_menu(action.as_str()),
            HostEvent::Update(payload) => {
                let script = make_update_script(payload.as_str());
                self.run_all(script.as_str())
            },
            HostEvent::BackendReady { port_file } => self.backend_ready(&port_file),
        }
    }
}

/// The window of the settings that is opened at the start; what they leave open
/// is taken from the app.
pub open spec fn startup_window(
    extra: ExtraWindowSettings,
    name: Seq<char>,
    width: u32,
    height: u32,
    entry: Seq<char>,
) -> PlanView {
    PlanView {
        title: match maybe(extra.title) {
            Some(title) => title,
            None => name,
        },
        width: match extra.width {
            Some(w) => w,
            None => width,
        },
        height: match extra.height {
            Some(h) => h,
            None => height,
        },
        url: extra_url(
            match maybe(extra.url) {
                Some(url) => url,
                None => entry,
            },
            entry,
        ),
    }
}

/// The window of the settings that is opened at the start.
pub fn startup_plan(
    extra: &ExtraWindowSettings,
    name: &str,
    width: u32,
    height: u32,
    entry_url: &str,
) -> (plan: WindowPlan)
    ensures
        plan@ == startup_window(*extra, name@, width, height, entry_url@),
{
    let title = match &extra.title {
        Some(title) => title.as_str().to_owned(),
        None => name.to_owned(),
    };
    let width: u32 = match extra.width {
        Some(w) => w,
        None => width,
    };
    let height: u32 = match extra.height {
        Some(h) => h,
        None => height,
    };
    let url = match &extra.url {
        Some(url) => resolve_extra_url(url.as_str(), entry_url),
        None => resolve_extra_url(entry_url, entry_url),
    };
    WindowPlan { title, width, height, url }
}

// ---------------------------------------------------------------------------
// Laws
// ---------------------------------------------------------------------------

/// No event makes two windows one: each secondary window is there once, and
/// none of them is the main window.
pub proof fn law_windows_stay_apart(host: HostView, event: EventView)
    requires
        host.wf(),
    ensures
        after(host, event).wf(),
{
    match event {
        EventView::Close(window) => {
            if window != host.main && host.extras.contains(window) {
                let at = host.extras.index_of(window);
                let rest = host.extras.remove(at);
                assert forall|i: int, j: int| 0 <= i < rest.len() && 0 <= j < rest.len() && i
                    != j implies rest[i] != rest[j] by {
                    let a = if i < at {
                        i
                    } else {
                        i + 1
                    };
                    let b = if j < at {
                        j
                    } else {
                        j + 1
                    };
                    assert(rest[i] == host.extras[a] && rest[j] == host.extras[b]);
                }
                if rest.contains(host.main) {
                    let i = choose|i: int| 0 <= i < rest.len() && rest[i] == host.main;
                    let a = if i < at {
                        i
                    } else {
                        i + 1
                    };
                    assert(host.extras[a] == host.main);
                }
            }
        },
        EventView::WindowOpened { window, response } => {
            if !host.has(window) {
                let more = host.extras.push(window);
                if more.contains(host.main) {
                    let i = choose|i: int| 0 <= i < more.len() && more[i] == host.main;
                    if i < host.extras.len() {
                        assert(host.extras[i] == host.main);
                    }
                }
                assert forall|i: int, j: int| 0 <= i < more.len() && 0 <= j < more.len() && i
                    != j implies more[i] != more[j] by {
                    if i == host.extras.len() {
                        assert(host.extras.contains(host.extras[j]));
                    } else if j == host.extras.len() {
                        assert(host.extras.contains(host.extras[i]));
                    }
                }
            }
        },
        _ => {},
    }
}

/// A reply goes to the window that asked and to no other.
pub proof fn law_replies_stay_with_their_window(host: HostView, window: u64, response: Seq<char>)
    ensures
        forall|i: int|
            0 <= i < done(host, EventView::Reply { window, response }).len() ==> (
            #[trigger] done(host, EventView::Reply { window, response })[i]) == (DoneView::Run {
                window,
                script: reply_script(response),
            }),
        host.has(window) ==> done(host, EventView::Reply { window, response }).len() == 1,
{
}

/// A secondary window that was closed is released, and gets nothing after it.
pub proof fn law_closed_windows_are_gone(host: HostView, window: u64, response: Seq<char>)
    requires
        host.wf(),
        host.extras.contains(window),
    ensures
        done(host, EventView::Close(window)) == seq![DoneView::Drop(window)],
        !after(host, EventView::Close(window)).has(window),
        done(
            after(host, EventView::Close(window)),
            EventView::Reply { window, response },
        ).len() == 0,
{
    let at = host.extras.index_of(window);
    let rest = host.extras.remove(at);
    assert(host.extras[at] == window);
    if rest.contains(window) {
        let i = choose|i: int| 0 <= i < rest.len() && rest[i] == window;
        let a = if i < at {
            i
        } else {
            i + 1
        };
        assert(host.extras[a] == window && a != at);
    }
}

/// Closing the main window hides it where the app lives on in the tray, and
/// ends the app otherwise; the windows stay as they are.
pub proof fn law_main_window_hides_or_ends_the_app(host: HostView)
    ensures
        after(host, EventView::Close(host.main)) == host,
        done(host, EventView::Close(host.main)) == (if host.minimize_to_tray {
            seq![DoneView::HideMain]
        } else {
            seq![DoneView::Exit]
        }),
{
}

/// The response to a request for a window comes when the page of the window
/// has loaded, and it comes once.
pub proof fn law_window_response_comes_once(host: HostView, window: u64, response: Seq<char>)
    requires
        host.wf(),
    ensures
        ({
            let opened = after(host, EventView::WindowOpened { window, response });
            let loaded = after(opened, EventView::PageLoaded(window));
            &&& done(opened, EventView::PageLoaded(window)) == seq![
                DoneView::Run { window, script: reply_script(response) },
            ]
            &&& done(loaded, EventView::PageLoaded(window)).len() == 0
        }),
{
    let opened = after(host, EventView::WindowOpened { window, response });
    if !host.has(window) {
        assert(opened.extras[opened.extras.len() - 1] == window);
    }
}

/// What the pages are told of updates reaches every window.
pub proof fn law_updates_reach_every_window(host: HostView, payload: Seq<char>, window: u64)
    requires
        host.has(window),
    ensures
        done(host, EventView::Update(payload)).contains(
            DoneView::Run { window, script: update_script(payload) },
        ),
{
    let all = done(host, EventView::Update(payload));
    let wanted = DoneView::Run { window, script: update_script(payload) };
    if window == host.main {
        assert(all[0] == wanted);
    } else {
        let i = choose|i: int| 0 <= i < host.extras.len() && host.extras[i] == window;
        assert(all[i + 1] == wanted);
    }
}

/// Once a backend is ready, the main window shows its page, and windows that
/// are opened after that start from it.
pub proof fn law_ready_backend_becomes_the_entry(
    host: HostView,
    port_file: Option<Seq<char>>,
    port: u16,
)
    requires
        ready_port(host, port_file) == Some(port),
    ensures
        done(host, EventView::BackendReady { port_file }) == seq![
            DoneView::Load(local_page(port)),
        ],
        after(host, EventView::BackendReady { port_file }).entry_url == local_page(port),
        after(host, EventView::BackendReady { port_file }).backend_port == Some(port),
{
}

/// The app ends only when its main window is closed and does not go to the tray,
/// or when the exit of the tray menu is clicked.
pub proof fn law_only_close_and_exit_end_the_app(host: HostView, event: EventView)
    requires
        done(host, event).contains(DoneView::Exit),
    ensures
        (event == EventView::Close(host.main) && !host.minimize_to_tray) || (event
            == EventView::TrayMenu("exit"@) && host.has_tray),
{
    let all = done(host, event);
    let i = choose|i: int| 0 <= i < all.len() && all[i] == DoneView::Exit;
    match event {
        EventView::TrayMenu(action) => {
            if host.has_tray && action != "exit"@ && action != "show"@ && i > 0 {
                assert(all[i] == (DoneView::Run {
                    window: host.extras[i - 1],
                    script: menu_script(action),
                }));
            }
        },
        EventView::Update(payload) => {
            if i > 0 {
                assert(all[i] == (DoneView::Run {
                    window: host.extras[i - 1],
                    script: update_script(payload),
                }));
            }
        },
        _ => {},
    }
}

/// A script runs only in a window that is there.
pub proof fn law_scripts_run_in_open_windows(
    host: HostView,
    event: EventView,
    window: u64,
    script: Seq<char>,
)
    requires
        done(host, event).contains((DoneView::Run { window, script })),
    ensures
        host.has(window),
{
    let all = done(host, event);
    let i = choose|i: int| 0 <= i < all.len() && all[i] == (DoneView::Run { window, script });
    match event {
        EventView::TrayMenu(action) => {
            if i > 0 {
                assert(all[i] == (DoneView::Run {
                    window: host.extras[i - 1],
                    script: menu_script(action),
                }));
                assert(host.extras.contains(host.extras[i - 1]));
            }
        },
        EventView::Update(payload) => {
            if i > 0 {
                assert(all[i] == (DoneView::Run {
                    window: host.extras[i - 1],
                    script: update_script(payload),
                }));
                assert(host.extras.contains(host.extras[i - 1]));
            }
        },
        _ => {},
    }
}

/// A window of the settings has the title, the width, the height and the page that
/// the settings give it, each by itself. What they leave open is that of the app.
pub proof fn law_startup_windows_follow_their_settings(
    extra: ExtraWindowSettings,
    name: Seq<char>,
    width: u32,
    height: u32,
    entry: Seq<char>,
)
    ensures
        ({
            let plan = startup_window(extra, name, width, height, entry);
            &&& extra.width matches Some(w) ==> plan.width == w
            &&& extra.width is None ==> plan.width == width
            &&& extra.height matches Some(h) ==> plan.height == h
            &&& extra.height is None ==> plan.height == height
            &&& extra.title matches Some(title) ==> plan.title == title@
            &&& extra.title is None ==> plan.title == name
            &&& extra.url matches Some(url) ==> plan.url == extra_url(url@, entry)
            &&& extra.url is None ==> plan.url == extra_url(entry, entry)
        }),
{
}

/// A page that asks for a window gets one with the title, the width, the height and
/// the page that it asks for, each by itself, and with its own response. What it
/// leaves open is that of the app.
pub proof fn law_requested_windows_follow_their_request(
    host: HostView,
    request: WindowView,
    response: Seq<char>,
)
    ensures
        after(host, EventView::OpenWindow { request, response }) == host,
        done(host, EventView::OpenWindow { request, response }).len() == 1,
        done(host, EventView::OpenWindow { request, response })[0] matches DoneView::Create {
            plan,
            response: kept,
        } && {
            &&& kept == response
            &&& request.width matches Some(w) ==> plan.width == w % 0x1_0000_0000
            &&& request.width is None ==> plan.width == host.width
            &&& request.height matches Some(h) ==> plan.height == h % 0x1_0000_0000
            &&& request.height is None ==> plan.height == host.height
            &&& request.title matches Some(title) ==> plan.title == title
            &&& request.title is None ==> plan.title == host.app_name
            &&& request.url matches Some(url) ==> plan.url == extra_url(url, host.entry_url)
            &&& request.url is None ==> plan.url == extra_url(host.entry_url, host.entry_url)
        },
{
}

/// A page gets a reply, or a reply of the sidecar, through its own handler and as
/// one string. A window that is not there gets nothing, and nothing else changes.
pub proof fn law_pages_get_their_replies(host: HostView, window: u64, response: Seq<char>)
    ensures
        window == host.main || host.extras.contains(window) ==> done(
            host,
            EventView::Reply { window, response },
        ) == seq![
            DoneView::Run {
                window,
                script: "window.brix && window.brix._handle("@ + quoted(response) + ")"@,
            },
        ],
        window == host.main || host.extras.contains(window) ==> done(
            host,
            EventView::ExtensionReply { window, response },
        ) == seq![
            DoneView::Run {
                window,
                script: "window.brix && window.brix._handleExtension("@ + quoted(response) + ")"@,
            },
        ],
        window != host.main && !host.extras.contains(window) ==> done(
            host,
            EventView::Reply { window, response },
        ).len() == 0 && done(host, EventView::ExtensionReply { window, response }).len() == 0,
        after(host, EventView::Reply { window, response }) == host,
        after(host, EventView::ExtensionReply { window, response }) == host,
{
}

/// What all pages are told runs once in the main window, and then once in each
/// secondary window in order.
pub proof fn law_news_goes_to_each_window_once(
    host: HostView,
    payload: Seq<char>,
    action: Seq<char>,
    i: int,
)
    requires
        0 <= i < host.extras.len(),
        host.has_tray,
        action != "exit"@,
        action != "show"@,
    ensures
        ({
            let news = done(host, EventView::Update(payload));
            let script = "window.brix && window.brix._handleEvent('update', "@ + payload + ")"@;
            &&& news.len() == host.extras.len() + 1
            &&& news[0] == (DoneView::Run { window: host.main, script })
            &&& news[i + 1] == (DoneView::Run { window: host.extras[i], script })
        }),
        ({
            let news = done(host, EventView::TrayMenu(action));
            let script = "window.brix && window.brix._handleEvent('tray_menu', "@ + (seq!['{']
                + written("id"@, quoted(action)) + seq!['}']) + ")"@;
            &&& news.len() == host.extras.len() + 1
            &&& news[0] == (DoneView::Run { window: host.main, script })
            &&& news[i + 1] == (DoneView::Run { window: host.extras[i], script })
        }),
        after(host, EventView::Update(payload)) == host,
        after(host, EventView::TrayMenu(action)) == host,
{
    law_replies_as_written(0, Seq::empty(), "id"@, quoted(action), Seq::empty(), Seq::empty());
}

/// The tray shows the main window on a click and on its own entry for that, and ends
/// the app on the entry for the end. Without a tray nothing happens.
pub proof fn law_tray_shows_and_ends_the_app(host: HostView, action: Seq<char>)
    ensures
        host.has_tray ==> done(host, EventView::TrayClick) == seq![DoneView::ShowMain],
        host.has_tray ==> done(host, EventView::TrayMenu("show"@)) == seq![DoneView::ShowMain],
        host.has_tray ==> done(host, EventView::TrayMenu("exit"@)) == seq![DoneView::Exit],
        !host.has_tray ==> done(host, EventView::TrayClick).len() == 0,
        !host.has_tray ==> done(host, EventView::TrayMenu(action)).len() == 0,
        after(host, EventView::TrayClick) == host,
        after(host, EventView::TrayMenu(action)) == host,
{
    reveal_strlit("show");
    reveal_strlit("exit");
    assert("show"@[0] != "exit"@[0]);
}

/// The splash window is released once: when a page asks for it, or when the main
/// page has loaded where it is to hide by itself.
pub proof fn law_splash_goes_once(host: HostView)
    ensures
        host.splash ==> done(host, EventView::HideSplash) == seq![DoneView::DropSplash],
        host.splash && host.auto_hide ==> done(host, EventView::CloseSplash) == seq![
            DoneView::DropSplash,
        ],
        host.splash && !host.auto_hide ==> done(host, EventView::CloseSplash).len() == 0 && after(
            host,
            EventView::CloseSplash,
        ) == host,
        !host.splash ==> done(host, EventView::HideSplash).len() == 0 && done(
            host,
            EventView::CloseSplash,
        ).len() == 0,
        after(host, EventView::HideSplash) == (HostView { splash: false, ..host }),
        host.auto_hide ==> after(host, EventView::CloseSplash) == (HostView {
            splash: false,
            ..host
        }),
{
}

/// A secondary window that closes is released, and the others stay in order. A
/// window that is not there closes without effect. Responses that wait stay.
pub proof fn law_closing_takes_one_window(host: HostView, i: int, window: u64)
    requires
        host.wf(),
        0 <= i < host.extras.len(),
        window != host.main,
        !host.extras.contains(window),
    ensures
        after(host, EventView::Close(host.extras[i])) == (HostView {
            extras: host.extras.take(i) + host.extras.skip(i + 1),
            ..host
        }),
        done(host, EventView::Close(host.extras[i])) == seq![DoneView::Drop(host.extras[i])],
        after(host, EventView::Close(window)) == host,
        done(host, EventView::Close(window)).len() == 0,
{
    assert(host.extras.contains(host.extras[i]));
    let at = host.extras.index_of(host.extras[i]);
    assert(host.extras[at] == host.extras[i]);
    assert(at == i);
    assert(host.extras.remove(i) =~= host.extras.take(i) + host.extras.skip(i + 1));
}

/// The main window closes as the settings say: to the tray, or with the app.
pub proof fn law_closing_the_main_window(host: HostView)
    ensures
        host.minimize_to_tray ==> done(host, EventView::Close(host.main)) == seq![
            DoneView::HideMain,
        ],
        !host.minimize_to_tray ==> done(host, EventView::Close(host.main)) == seq![DoneView::Exit],
        after(host, EventView::Close(host.main)) == host,
{
}

/// A window that has opened comes behind the others, and its response waits. When
/// the page of a window has loaded, the response that waits for it goes out, and
/// those of the other windows wait on.
pub proof fn law_responses_wait_for_their_page(
    host: HostView,
    window: u64,
    response: Seq<char>,
    other: u64,
)
    ensures
        ({
            let opened = after(host, EventView::WindowOpened { window, response });
            &&& done(host, EventView::WindowOpened { window, response }).len() == 0
            &&& window != host.main && !host.extras.contains(window) ==> opened.extras
                == host.extras.push(window)
            &&& window == host.main || host.extras.contains(window) ==> opened.extras
                == host.extras
            &&& opened == (HostView {
                extras: opened.extras,
                waiting: host.waiting.insert(window, response),
                ..host
            })
        }),
        after(host, EventView::PageLoaded(window)) == (HostView {
            waiting: host.waiting.remove(window),
            ..host
        }),
        host.waiting.contains_pair(window, response) && (window == host.main
            || host.extras.contains(window)) ==> done(host, EventView::PageLoaded(window)) == seq![
            DoneView::Run {
                window,
                script: "window.brix && window.brix._handle("@ + quoted(response) + ")"@,
            },
        ],
        !host.waiting.contains_key(window) || (window != host.main && !host.extras.contains(window))
            ==> done(host, EventView::PageLoaded(window)).len() == 0,
        other != window && host.waiting.contains_key(other) ==> after(
            host,
            EventView::PageLoaded(window),
        ).waiting.contains_pair(other, host.waiting[other]),
{
}

/// When the wait for the backend is over, the main window loads the page of its
/// port: of the one that the settings name, or where they name port 0 of the one in
/// the port file. Without a port nothing happens.
pub proof fn law_backend_page_is_loaded(host: HostView, port_file: Option<Seq<char>>, port: u16)
    ensures
        ({
            let event = EventView::BackendReady { port_file };
            let page = "http://127.0.0.1:"@ + decimal(port as int) + "/"@;
            let known = (host.port == Some(port) && port != 0) || (host.port == Some(0u16)
                && port_file is Some && port_in(port_file->0) == Some(port));
            &&& known ==> done(host, event) == seq![DoneView::Load(page)]
            &&& known ==> after(host, event) == (HostView {
                entry_url: page,
                backend_port: Some(port),
                ..host
            })
            &&& host.port is None || (host.port == Some(0u16) && (port_file is None || port_in(
                port_file->0,
            ) is None)) ==> done(host, event).len() == 0 && after(host, event) == host
        }),
{
}

/// No event changes what the windows were told at the start.
pub proof fn law_settings_stay(host: HostView, event: EventView)
    ensures
        ({
            let next = after(host, event);
            &&& next.main == host.main
            &&& next.app_name == host.app_name
            &&& next.width == host.width
            &&& next.height == host.height
            &&& next.auto_hide == host.auto_hide
            &&& next.minimize_to_tray == host.minimize_to_tray
            &&& next.has_tray == host.has_tray
            &&& next.port == host.port
        }),
{
}

} // verus!
