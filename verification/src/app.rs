//! Application state: what the settings surface and the tray show, and what a
//! pause or an autostart toggle does to it. The hidden window, the tray icon
//! and the message loop are the program's.

use vstd::prelude::*;

use crate::janitor::{Event, Janitor, JanitorModel};
use crate::text::{decimal, push_decimal, push_str, string_from};

verus! {

broadcast use vstd::string::group_string_axioms;

/// Everything the settings screen renders, read in one go so the surface never
/// holds a borrow of live state while it draws.
pub struct Snapshot {
    pub paused: bool,
    pub hidden: u64,
    pub autostart: bool,
    pub last_title: String,
    /// When the session started, in milliseconds on the program's clock.
    pub session_start: u64,
}

/// The app's state, as the contracts speak of it.
pub struct AppModel {
    pub janitor: Option<JanitorModel>,
    pub session_start: u64,
    pub last_title: Seq<char>,
}

pub struct App {
    /// The janitor, once its hooks are in.
    pub janitor: Option<Janitor>,
    session_start: u64,
    /// The title of the last window hidden. The app tracks it from the events it
    /// receives rather than reaching into the janitor for it.
    last_title: String,
}

impl View for App {
    type V = AppModel;

    closed spec fn view(&self) -> AppModel {
        AppModel {
            janitor: match self.janitor {
                Some(j) => Some(j@),
                None => None,
            },
            session_start: self.session_start,
            last_title: self.last_title@,
        }
    }
}

/// Whether the janitor is paused; no janitor is not paused.
pub open spec fn paused_of(m: AppModel) -> bool {
    match m.janitor {
        Some(j) => j.paused,
        None => false,
    }
}

/// The windows hidden this session; none without a janitor.
pub open spec fn hidden_of(m: AppModel) -> u64 {
    match m.janitor {
        Some(j) => j.hidden,
        None => 0,
    }
}

/// What a pause toggle does: flip the janitor's pause, and say which way it
/// went for the log. Without a janitor it does nothing.
pub open spec fn toggle_step(m: AppModel) -> (AppModel, Option<Seq<char>>) {
    match m.janitor {
        Some(j) => (
            AppModel { janitor: Some(JanitorModel { paused: !j.paused, ..j }), ..m },
            Some(
                if !j.paused {
                    "paused"@
                } else {
                    "resumed"@
                },
            ),
        ),
        None => (m, None),
    }
}

pub open spec fn tooltip_of(m: AppModel) -> Seq<char> {
    if paused_of(m) {
        "Ternitor - paused"@
    } else {
        "Ternitor - "@ + decimal(hidden_of(m) as nat) + " hidden this session"@
    }
}

pub open spec fn autostart_line(on: bool, error: Option<Seq<char>>) -> Seq<char> {
    match error {
        None => if on {
            "autostart enabled"@
        } else {
            "autostart disabled"@
        },
        Some(e) => "autostart toggle failed: "@ + e,
    }
}

impl App {
    /// A session starting at `session_start`, with no janitor yet.
    pub fn new(session_start: u64) -> (a: App)
        ensures
            a@.janitor is None,
            a@.session_start == session_start,
            a@.last_title == Seq::<char>::empty(),
    {
        App { janitor: None, session_start, last_title: String::new() }
    }

    pub fn snapshot(&self, autostart: bool) -> (s: Snapshot)
        ensures
            s.paused == paused_of(self@),
            s.hidden == hidden_of(self@),
            s.autostart == autostart,
            s.last_title@ == self@.last_title,
            s.session_start == self@.session_start,
    {
        let (paused, hidden) = match &self.janitor {
            Some(j) => (j.paused(), j.hidden_count()),
            None => (false, 0),
        };
        Snapshot {
            paused,
            hidden,
            autostart,
            last_title: string_from(self.last_title.as_str()),
            session_start: self.session_start,
        }
    }

    /// The janitor owns the detection and its own log lines. All the app does
    /// here is remember the title of what was hidden.
    pub fn on_event(&mut self, ev: Event)
        ensures
            final(self)@.janitor == old(self)@.janitor,
            final(self)@.session_start == old(self)@.session_start,
            final(self)@.last_title == match ev {
                Event::Hidden { title } => title@,
                Event::Restored { .. } => old(self)@.last_title,
            },
    {
        match ev {
            Event::Hidden { title } => {
                self.last_title = title;
            },
            Event::Restored { .. } => {},
        }
    }

    /// Flip the pause. Returns the line for the log, or nothing when there is
    /// no janitor to pause.
    pub fn toggle_pause(&mut self) -> (line: Option<String>)
        ensures
            final(self)@ == toggle_step(old(self)@).0,
            match line {
                Some(l) => toggle_step(old(self)@).1 == Some(l@),
                None => toggle_step(old(self)@).1 is None,
            },
    {
        match &mut self.janitor {
            Some(j) => {
                let now = !j.paused();
                j.set_paused(now);
                if now {
                    Some(string_from("paused"))
                } else {
                    Some(string_from("resumed"))
                }
            },
            None => None,
        }
    }

    /// The log line for an autostart toggle, given what the registry write
    /// came to.
    pub fn set_autostart(&self, on: bool, written: &Result<(), String>) -> (line: String)
        ensures
            line@ == autostart_line(
                on,
                match written {
                    Ok(_) => None,
                    Err(e) => Some(e@),
                },
            ),
    {
        match written {
            Ok(()) => if on {
                string_from("autostart enabled")
            } else {
                string_from("autostart disabled")
            },
            Err(e) => {
                let mut l = string_from("autostart toggle failed: ");
                push_str(&mut l, e.as_str());
                l
            },
        }
    }

    /// The tooltip carries the two facts worth knowing without opening
    /// anything: whether hiding is paused, and how many were hidden.
    pub fn refresh_tooltip(&self) -> (t: String)
        ensures
            t@ == tooltip_of(self@),
    {
        let s = self.snapshot(false);
        if s.paused {
            string_from("Ternitor - paused")
        } else {
            let mut t = string_from("Ternitor - ");
            push_decimal(&mut t, s.hidden);
            push_str(&mut t, " hidden this session");
            t
        }
    }
}

// ------------------------------------------------------------------ laws ---

/// Pausing and resuming again leaves everything as it was, and only the pause
/// changes: the count and what waits are untouched.
pub proof fn law_pause_toggles_back(m: AppModel)
    ensures
        toggle_step(toggle_step(m).0).0 == m,
        hidden_of(toggle_step(m).0) == hidden_of(m),
        m.janitor is Some ==> paused_of(toggle_step(m).0) == !paused_of(m),
{
    match m.janitor {
        Some(j) => {
            assert(toggle_step(toggle_step(m).0).0.janitor == m.janitor);
        },
        None => {},
    }
}

} // verus!
