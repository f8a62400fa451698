//! The janitor: which new console windows are hidden, and which of the hidden
//! ones are given back.
//!
//! Detection is two conditions, never one: a window is hidden only when its
//! class is Windows Terminal's `CASCADIA_HOSTING_WINDOW_CLASS` and the command
//! line of the process that owns it carries the default-terminal broker's
//! `-Embedding` flag, so a terminal a person opened is never touched. The title
//! cannot stand in for either: at creation it is still a placeholder. Every
//! hidden window is looked at again once its title has had time to settle, and
//! given back if the title says a person asked for it.
//!
//! Everything here is decided over plain values: the window handle as a number,
//! the clock as milliseconds, what the window's class, title and owner's
//! command line read. The hooks, the timer and the calls that hide and show a
//! window belong to the program around this module.

use std::collections::HashSet;
use vstd::prelude::*;

use crate::text::{
    chars_of, eq_ignore_ascii_case, lower, string_of, trim, trim_range, window_eq_ignore_ascii_case,
};

verus! {

broadcast use {vstd::std_specs::hash::group_hash_axioms, vstd::string::group_string_axioms};

/// How long a hidden window's title is given to declare what it really is, in
/// milliseconds. An agent-spawned blank resolves to a bare executable path
/// quickly; a real shell can take seconds to name itself, and a shell wrongly
/// hidden is worse than a slow reveal.
pub const RECHECK_DELAY_MS: u64 = 600;

/// How many times an undecided title is looked at again before it is written
/// off as a blank.
pub const MAX_RECHECK_TRIES: u32 = 10;

/// Windows already given back are remembered, but not without limit.
pub const RELEASED_MEMORY: usize = 512;

/// The object id a window event carries when it is about the window itself.
pub const OBJID_WINDOW: i32 = 0;

// ------------------------------------------------------------ the titles ---

/// `-Embedding`, the flag only the default-terminal broker passes.
pub open spec fn embedding_flag() -> Seq<u8> {
    seq![45u8, 69u8, 109u8, 98u8, 101u8, 100u8, 100u8, 105u8, 110u8, 103u8]
}

/// `.exe`.
pub open spec fn exe_suffix() -> Seq<u8> {
    seq![46u8, 101u8, 120u8, 101u8]
}

/// Whether `needle` occurs anywhere in `hay`, ignoring ASCII case.
pub open spec fn contains_ignore_ascii_case(hay: Seq<u8>, needle: Seq<u8>) -> bool {
    &&& hay.len() >= needle.len()
    &&& exists|i: int|
        0 <= i <= hay.len() - needle.len() && #[trigger] eq_ignore_ascii_case(
            hay.subrange(i, i + needle.len()),
            needle,
        )
}

/// A command line that carries the broker's flag, in any case.
pub open spec fn has_embedding(cmd: Seq<u8>) -> bool {
    contains_ignore_ascii_case(cmd, embedding_flag())
}

pub open spec fn is_ascii_alpha(b: u8) -> bool {
    (65 <= b <= 90) || (97 <= b <= 122)
}

/// `C:\Windows\System32\cmd.exe` and nothing besides: a drive letter, a colon,
/// a slash either way, and `.exe` at the end in any case.
pub open spec fn bare_exe_path(b: Seq<u8>) -> bool {
    &&& b.len() > 3
    &&& eq_ignore_ascii_case(b.subrange(b.len() - 4, b.len() as int), exe_suffix())
    &&& is_ascii_alpha(b[0])
    &&& b[1] == 58u8
    &&& (b[2] == 92u8 || b[2] == 47u8)
}

/// Windows Terminal's own title, before the client's replaces it.
pub open spec fn undecided_title(t: Seq<char>) -> bool {
    ||| t.len() == 0
    ||| t == "Windows Terminal"@
    ||| t == "Terminal"@
}

/// What a pending window's title says it is.
#[derive(Debug, Clone, Copy, PartialEq, Eq, Structural)]
pub enum Verdict {
    /// No title yet, or still Windows Terminal's placeholder.
    Undecided,
    /// A blank console: the OS-assigned name of the executable and nothing more.
    StayHidden,
    /// Something a person asked for, which has to be given back.
    Restore,
}

/// The verdict on a title, as `classify` reaches it.
pub open spec fn verdict_of(t: Seq<char>) -> Verdict {
    if undecided_title(t) {
        Verdict::Undecided
    } else if bare_exe_path(vstd::utf8::encode_utf8(t)) {
        Verdict::StayHidden
    } else {
        Verdict::Restore
    }
}

/// Whether two strings hold the same characters.
fn same_text(a: &str, b: &str) -> (r: bool)
    ensures
        r == (a@ == b@),
{
    let x = chars_of(a);
    let y = chars_of(b);
    if x.len() != y.len() {
        return false;
    }
    let mut i: usize = 0;
    while i < x.len()
        invariant
            x@ == a@,
            y@ == b@,
            x@.len() == y@.len(),
            0 <= i <= x@.len(),
            forall|j: int| 0 <= j < i ==> x@[j] == y@[j],
        decreases x@.len() - i,
    {
        if x[i] != y[i] {
            return false;
        }
        i += 1;
    }
    assert(x@ =~= y@);
    true
}

/// Windows Terminal's own title, before it has been replaced by the client's.
pub fn is_undecided_title(title: &str) -> (r: bool)
    ensures
        r == undecided_title(title@),
{
    let empty = chars_of(title).len() == 0;
    empty || same_text(title, "Windows Terminal") || same_text(title, "Terminal")
}

/// `C:\Windows\System32\cmd.exe` and nothing besides: the OS's placeholder for
/// a console whose client never named it.
pub fn is_bare_exe_path(title: &str) -> (r: bool)
    ensures
        r == bare_exe_path(vstd::utf8::encode_utf8(title@)),
{
    let b = title.as_bytes();
    let n = b.len();
    if n <= 3 {
        return false;
    }
    let exe: [u8; 4] = [46, 101, 120, 101];
    assert(exe@ =~= exe_suffix());
    let suffix = window_eq_ignore_ascii_case(b, n - 4, exe.as_slice());
    let first = b[0];
    let alpha = (65 <= first && first <= 90) || (97 <= first && first <= 122);
    suffix && alpha && b[1] == 58 && (b[2] == 92 || b[2] == 47)
}

/// Whether a process's command line carries the broker's `-Embedding` flag,
/// in any case.
pub fn command_line_has_embedding(cmd: &str) -> (r: bool)
    ensures
        r == has_embedding(vstd::utf8::encode_utf8(cmd@)),
{
    let hay = cmd.as_bytes();
    let flag: [u8; 10] = [45, 69, 109, 98, 101, 100, 100, 105, 110, 103];
    assert(flag@ =~= embedding_flag());
    let needle = flag.as_slice();
    let n = needle.len();
    let h = hay.len();
    if h < n {
        return false;
    }
    let mut i: usize = 0;
    while i <= h - n
        invariant
            n == needle@.len(),
            h == hay@.len(),
            needle@ == embedding_flag(),
            hay@ == vstd::utf8::encode_utf8(cmd@),
            n <= h,
            0 <= i <= h - n + 1,
            forall|j: int|
                0 <= j < i ==> !#[trigger] eq_ignore_ascii_case(
                    hay@.subrange(j, j + n),
                    needle@,
                ),
        decreases h - n + 1 - i,
    {
        if window_eq_ignore_ascii_case(hay, i, needle) {
            assert(eq_ignore_ascii_case(hay@.subrange(i as int, i + embedding_flag().len()), embedding_flag()));
            assert(has_embedding(hay@));
            return true;
        }
        i += 1;
    }
    false
}

/// The verdict on a title that has already been trimmed.
pub fn classify(title: &str) -> (v: Verdict)
    ensures
        v == verdict_of(title@),
{
    if is_undecided_title(title) {
        Verdict::Undecided
    } else if is_bare_exe_path(title) {
        Verdict::StayHidden
    } else {
        Verdict::Restore
    }
}

/// `title` with the whitespace at both ends removed.
pub fn trimmed(title: &str) -> (t: String)
    ensures
        t@ == trim(title@),
{
    let v = chars_of(title);
    let (lo, hi) = trim_range(&v, 0, v.len());
    assert(v@.subrange(0, v@.len() as int) =~= v@);
    string_of(&v, lo, hi)
}

/// What the janitor reports, so the settings screen can show real activity.
#[derive(Debug, Clone, PartialEq, Eq)]
pub enum Event {
    Hidden { title: String },
    Restored { title: String },
}

// ------------------------------------------------------------ the classes ---

/// Windows Terminal's window class, and everything else.
#[derive(Debug, Clone, Copy, PartialEq, Eq, Structural)]
pub enum WindowKind {
    /// `CASCADIA_HOSTING_WINDOW_CLASS`: Windows Terminal's window.
    Terminal,
    /// Any other class, a console a person opened among them: never touched.
    Other,
}

pub open spec fn kind_of(class: Seq<char>) -> WindowKind {
    if class == "CASCADIA_HOSTING_WINDOW_CLASS"@ {
        WindowKind::Terminal
    } else {
        WindowKind::Other
    }
}

/// The kind of a window, by its class name.
pub fn window_kind(class: &str) -> (k: WindowKind)
    ensures
        k == kind_of(class@),
{
    if same_text(class, "CASCADIA_HOSTING_WINDOW_CLASS") {
        WindowKind::Terminal
    } else {
        WindowKind::Other
    }
}

/// Whether a window is one of the blank consoles this app exists to hide. Two
/// conditions, never one: the window is Windows Terminal's, and its owner's
/// command line carries the broker's `-Embedding` flag.
pub open spec fn unwanted(kind: WindowKind, command_line: Option<Seq<u8>>) -> bool {
    &&& kind == WindowKind::Terminal
    &&& command_line matches Some(cmd) && has_embedding(cmd)
}

/// Decides whether a window is to be hidden. `command_line` is the owning
/// process's command line where it could be read; it is only looked at for
/// Windows Terminal.
pub fn is_unwanted(kind: WindowKind, command_line: Option<&str>) -> (r: bool)
    ensures
        r == unwanted(
            kind,
            match command_line {
                Some(c) => Some(vstd::utf8::encode_utf8(c@)),
                None => None,
            },
        ),
{
    match kind {
        WindowKind::Terminal => match command_line {
            Some(cmd) => command_line_has_embedding(cmd),
            None => false,
        },
        WindowKind::Other => false,
    }
}

// ------------------------------------------------------------- the state ---

/// A hidden window waiting to be looked at again.
#[derive(Debug, Clone, Copy, PartialEq, Eq, Structural)]
pub struct Pending {
    /// The window's handle.
    pub window: usize,
    /// When it was hidden or last looked at, in milliseconds.
    pub at: u64,
    /// How many times its title has been found undecided.
    pub tries: u32,
}

/// The janitor's state, as the contracts speak of it.
pub struct JanitorModel {
    pub paused: bool,
    /// Windows hidden this session.
    pub hidden: u64,
    /// The last foreground window that was not one to hide; 0 for none.
    pub last_foreground: usize,
    pub pending: Seq<Pending>,
    /// Windows already given back.
    pub released: Set<usize>,
}

/// The invariant every janitor keeps: each hidden window waits once, no window
/// is retried past the limit, and the memory of given-back windows is bounded.
pub open spec fn well_formed(m: JanitorModel) -> bool {
    &&& forall|i: int, j: int|
        0 <= i < j < m.pending.len() ==> #[trigger] m.pending[i].window
            != #[trigger] m.pending[j].window
    &&& forall|i: int|
        0 <= i < m.pending.len() ==> #[trigger] m.pending[i].tries <= MAX_RECHECK_TRIES
            && m.pending[i].window != 0
    &&& m.released.finite()
    &&& m.released.len() <= RELEASED_MEMORY
}

/// Where the pending window `w` sits, or -1.
pub open spec fn index_of(p: Seq<Pending>, w: usize) -> int
    decreases p.len(),
{
    if p.len() == 0 {
        -1
    } else if p.last().window == w {
        p.len() - 1
    } else {
        index_of(p.drop_last(), w)
    }
}

pub open spec fn is_pending(m: JanitorModel, w: usize) -> bool {
    index_of(m.pending, w) >= 0
}

/// Events for a window are acted on only while the janitor runs and the window
/// has not already been given back.
pub open spec fn watching(m: JanitorModel, w: usize) -> bool {
    !m.paused && !m.released.contains(w)
}

/// Where focus goes after `hidden` is hidden: back to the last real foreground
/// window, unless there is none or it is the hidden window itself.
pub open spec fn focus_target(previous: usize, hidden: usize) -> Option<usize> {
    if previous == 0 || previous == hidden {
        None
    } else {
        Some(previous)
    }
}

/// What to do about a window that was created or shown.
#[derive(Debug, Clone, Copy, PartialEq, Eq, Structural)]
pub enum ObjectAction {
    /// Nothing.
    Ignore,
    /// Hide it, then hand focus to `give_focus_to` if that window still exists.
    Hide { give_focus_to: Option<usize> },
}

/// What to do about a window that came to the foreground.
#[derive(Debug, Clone, Copy, PartialEq, Eq, Structural)]
pub enum ForegroundAction {
    /// Nothing: it was not a window.
    Ignore,
    /// A window to hide took focus: hide it again, and hand focus back.
    TakeBack { give_focus_to: Option<usize> },
    /// A real window: remembered as the place focus goes back to.
    Noted,
}

/// Whether a window event is about a window itself, and one this janitor is
/// to act on.
pub open spec fn object_fires(
    m: JanitorModel,
    w: usize,
    id_object: i32,
    id_child: i32,
    unwanted: bool,
) -> bool {
    id_object == OBJID_WINDOW && id_child == 0 && w != 0 && watching(m, w) && unwanted
}

/// A window was created or shown.
pub open spec fn object_step(
    m: JanitorModel,
    w: usize,
    id_object: i32,
    id_child: i32,
    unwanted: bool,
    now: u64,
) -> (JanitorModel, ObjectAction) {
    if object_fires(m, w, id_object, id_child, unwanted) {
        (
            JanitorModel {
                hidden: if m.hidden < u64::MAX {
                    (m.hidden + 1) as u64
                } else {
                    m.hidden
                },
                pending: if is_pending(m, w) {
                    m.pending
                } else {
                    m.pending.push(Pending { window: w, at: now, tries: 0 })
                },
                ..m
            },
            ObjectAction::Hide { give_focus_to: focus_target(m.last_foreground, w) },
        )
    } else {
        (m, ObjectAction::Ignore)
    }
}

/// A window came to the foreground.
pub open spec fn foreground_step(m: JanitorModel, w: usize, unwanted: bool) -> (
    JanitorModel,
    ForegroundAction,
) {
    if w == 0 {
        (m, ForegroundAction::Ignore)
    } else if watching(m, w) && unwanted {
        (m, ForegroundAction::TakeBack { give_focus_to: focus_target(m.last_foreground, w) })
    } else {
        (JanitorModel { last_foreground: w, ..m }, ForegroundAction::Noted)
    }
}

/// A pending entry whose title has had time to settle.
pub open spec fn is_due(p: Pending, now: u64) -> bool {
    now >= p.at && now - p.at >= RECHECK_DELAY_MS
}

/// The pending windows that are due, last entry first.
pub open spec fn due_windows(p: Seq<Pending>, now: u64) -> Seq<usize>
    decreases p.len(),
{
    if p.len() == 0 {
        Seq::empty()
    } else {
        let rest = due_windows(p.drop_last(), now);
        if is_due(p.last(), now) {
            seq![p.last().window] + rest
        } else {
            rest
        }
    }
}

/// What was seen when a pending window was looked at again.
pub enum Look {
    /// The window no longer exists.
    Gone,
    /// The window's title, as it reads now.
    Titled(String),
}

impl View for Look {
    type V = Option<Seq<char>>;

    open spec fn view(&self) -> Option<Seq<char>> {
        match self {
            Look::Gone => None,
            Look::Titled(t) => Some(t@),
        }
    }
}

/// What became of a pending window that was looked at again.
#[derive(Debug)]
pub enum Settlement {
    /// It was not waiting.
    NotPending,
    /// It is gone, and forgotten.
    Forgotten,
    /// Its title is still undecided; it waits again.
    Waiting,
    /// It was a blank, and stays hidden. The title is trimmed.
    StaysHidden { title: String },
    /// It was a real shell: show it again, without activating it. The title is
    /// trimmed.
    Restore { title: String },
}

pub enum SettlementView {
    NotPending,
    Forgotten,
    Waiting,
    StaysHidden(Seq<char>),
    Restore(Seq<char>),
}

impl View for Settlement {
    type V = SettlementView;

    open spec fn view(&self) -> SettlementView {
        match self {
            Settlement::NotPending => SettlementView::NotPending,
            Settlement::Forgotten => SettlementView::Forgotten,
            Settlement::Waiting => SettlementView::Waiting,
            Settlement::StaysHidden { title } => SettlementView::StaysHidden(title@),
            Settlement::Restore { title } => SettlementView::Restore(title@),
        }
    }
}

/// The memory of given-back windows, with `w` added; it is forgotten whole
/// when it is full.
pub open spec fn remember(released: Set<usize>, w: usize) -> Set<usize> {
    if released.len() >= RELEASED_MEMORY {
        Set::empty().insert(w)
    } else {
        released.insert(w)
    }
}

/// A pending window was looked at again.
pub open spec fn settle_step(m: JanitorModel, w: usize, look: Option<Seq<char>>, now: u64) -> (
    JanitorModel,
    SettlementView,
) {
    let i = index_of(m.pending, w);
    if i < 0 {
        (m, SettlementView::NotPending)
    } else {
        let gone = JanitorModel { pending: m.pending.remove(i), ..m };
        match look {
            None => (gone, SettlementView::Forgotten),
            Some(raw) => {
                let t = trim(raw);
                let p = m.pending[i];
                match verdict_of(t) {
                    Verdict::Undecided if p.tries < MAX_RECHECK_TRIES => (
                        JanitorModel {
                            pending: m.pending.update(
                                i,
                                Pending { window: w, at: now, tries: (p.tries + 1) as u32 },
                            ),
                            ..m
                        },
                        SettlementView::Waiting,
                    ),
                    Verdict::Restore => (
                        JanitorModel { released: remember(m.released, w), ..gone },
                        SettlementView::Restore(t),
                    ),
                    _ => (gone, SettlementView::StaysHidden(t)),
                }
            },
        }
    }
}

/// The janitor: paused or not, how many windows it has hidden, and the hidden
/// windows it has still to look at again.
pub struct Janitor {
    paused: bool,
    hidden: u64,
    last_foreground: usize,
    pending: Vec<Pending>,
    released: HashSet<usize>,
}

impl View for Janitor {
    type V = JanitorModel;

    closed spec fn view(&self) -> JanitorModel {
        JanitorModel {
            paused: self.paused,
            hidden: self.hidden,
            last_foreground: self.last_foreground,
            pending: self.pending@,
            released: self.released@,
        }
    }
}

pub proof fn lemma_index_of(p: Seq<Pending>, w: usize)
    ensures
        -1 <= index_of(p, w) < p.len(),
        index_of(p, w) >= 0 ==> p[index_of(p, w)].window == w,
        index_of(p, w) < 0 ==> forall|k: int| 0 <= k < p.len() ==> p[k].window != w,
    decreases p.len(),
{
    if p.len() > 0 && p.last().window != w {
        lemma_index_of(p.drop_last(), w);
        assert forall|k: int| 0 <= k < p.len() - 1 implies p[k] == p.drop_last()[k] by {}
    }
}

impl Janitor {
    #[verifier::type_invariant]
    closed spec fn inv(self) -> bool {
        well_formed(self@)
    }

    /// A janitor that is running, has hidden nothing and waits for nothing.
    pub fn new() -> (j: Janitor)
        ensures
            j@.paused == false,
            j@.hidden == 0,
            j@.last_foreground == 0,
            j@.pending == Seq::<Pending>::empty(),
            j@.released == Set::<usize>::empty(),
    {
        let j = Janitor {
            paused: false,
            hidden: 0,
            last_foreground: 0,
            pending: Vec::new(),
            released: HashSet::new(),
        };
        assert(j@.released.finite());
        j
    }

    pub fn set_paused(&mut self, paused: bool)
        ensures
            final(self)@.paused == paused,
            final(self)@.hidden == old(self)@.hidden,
            final(self)@.last_foreground == old(self)@.last_foreground,
            final(self)@.pending == old(self)@.pending,
            final(self)@.released == old(self)@.released,
    {
        proof {
            use_type_invariant(&*self);
            assert(well_formed(JanitorModel { paused: paused, ..self@ }));
        }
        self.paused = paused;
    }

    pub fn paused(&self) -> (p: bool)
        ensures
            p == self@.paused,
    {
        self.paused
    }

    /// How many windows were hidden this session.
    pub fn hidden_count(&self) -> (n: u64)
        ensures
            n == self@.hidden,
    {
        self.hidden
    }

    /// Whether events for `window` are acted on: the janitor runs, and the
    /// window has not been given back. Only then is it worth reading what the
    /// window is.
    pub fn watches(&self, window: usize) -> (r: bool)
        ensures
            r == watching(self@, window),
    {
        !self.paused && !self.released.contains(&window)
    }

    /// Whether `window` waits to be looked at again.
    pub fn is_waiting(&self, window: usize) -> (r: bool)
        ensures
            r == is_pending(self@, window),
    {
        self.find(window).is_some()
    }

    fn find(&self, window: usize) -> (r: Option<usize>)
        ensures
            r matches Some(i) ==> i as int == index_of(self@.pending, window),
            r is None ==> index_of(self@.pending, window) < 0,
    {
        proof {
            use_type_invariant(self);
        }
        let mut i = self.pending.len();
        assert(self.pending@.subrange(0, i as int) =~= self.pending@);
        while i > 0
            invariant
                i <= self.pending@.len(),
                index_of(self.pending@, window) == index_of(self.pending@.subrange(0, i as int), window),
            decreases i,
        {
            let ghost p = self.pending@.subrange(0, i as int);
            if self.pending[i - 1].window == window {
                assert(p.last() == self.pending@[i - 1]);
                return Some(i - 1);
            }
            assert(p.drop_last() =~= self.pending@.subrange(0, i - 1));
            i -= 1;
        }
        None
    }

    /// A window was created or shown. `unwanted` is whether it is one to hide
    /// (see `is_unwanted`), read only when `watches` says the window is
    /// watched; it is ignored otherwise.
    pub fn on_object_event(
        &mut self,
        window: usize,
        id_object: i32,
        id_child: i32,
        unwanted: bool,
        now: u64,
    ) -> (act: ObjectAction)
        ensures
            (final(self)@, act) == object_step(old(self)@, window, id_object, id_child, unwanted, now),
    {
        proof {
            use_type_invariant(&*self);
        }
        if id_object != OBJID_WINDOW || id_child != 0 || window == 0 || !self.watches(window)
            || !unwanted {
            return ObjectAction::Ignore;
        }
        if self.hidden < u64::MAX {
            self.hidden = self.hidden + 1;
        }
        let found = self.find(window);
        if found.is_none() {
            proof {
                lemma_index_of(self.pending@, window);
            }
            let mut p: Vec<Pending> = Vec::new();
            std::mem::swap(&mut p, &mut self.pending);
            p.push(Pending { window, at: now, tries: 0 });
            self.pending = p;
        }
        let give = if self.last_foreground == 0 || self.last_foreground == window {
            None
        } else {
            Some(self.last_foreground)
        };
        ObjectAction::Hide { give_focus_to: give }
    }

    /// A window came to the foreground. `unwanted` is read as for
    /// `on_object_event`.
    pub fn on_foreground(&mut self, window: usize, unwanted: bool) -> (act: ForegroundAction)
        ensures
            (final(self)@, act) == foreground_step(old(self)@, window, unwanted),
    {
        proof {
            use_type_invariant(&*self);
        }
        if window == 0 {
            return ForegroundAction::Ignore;
        }
        if self.watches(window) && unwanted {
            let give = if self.last_foreground == 0 || self.last_foreground == window {
                None
            } else {
                Some(self.last_foreground)
            };
            return ForegroundAction::TakeBack { give_focus_to: give };
        }
        self.last_foreground = window;
        ForegroundAction::Noted
    }

    /// The waiting windows whose titles have had time to settle, in the order
    /// they are to be looked at: the most recently added first.
    pub fn due(&self, now: u64) -> (d: Vec<usize>)
        ensures
            d@ == due_windows(self@.pending, now),
    {
        let mut d: Vec<usize> = Vec::new();
        let mut i = self.pending.len();
        assert(self.pending@.subrange(0, i as int) =~= self.pending@);
        while i > 0
            invariant
                i <= self.pending@.len(),
                d@ + due_windows(self.pending@.subrange(0, i as int), now) == due_windows(
                    self.pending@,
                    now,
                ),
            decreases i,
        {
            let ghost p = self.pending@.subrange(0, i as int);
            let e = self.pending[i - 1];
            assert(p.last() == e);
            assert(p.drop_last() =~= self.pending@.subrange(0, i - 1));
            if now >= e.at && now - e.at >= RECHECK_DELAY_MS {
                d.push(e.window);
                assert(d@ + due_windows(self.pending@.subrange(0, i - 1), now) =~= d@.drop_last()
                    + (seq![e.window] + due_windows(self.pending@.subrange(0, i - 1), now)));
            }
            i -= 1;
        }
        assert(d@ + due_windows(self.pending@.subrange(0, 0), now) =~= d@);
        d
    }

    /// A waiting window was looked at again: forget it if it is gone, let it
    /// wait again while its title is undecided (up to `MAX_RECHECK_TRIES`
    /// times), and otherwise decide by its trimmed title whether it stays
    /// hidden or is given back.
    pub fn settle(&mut self, window: usize, look: Look, now: u64) -> (s: Settlement)
        ensures
            (final(self)@, s@) == settle_step(old(self)@, window, look@, now),
    {
        proof {
            use_type_invariant(&*self);
        }
        let found = self.find(window);
        let i = match found {
            None => return Settlement::NotPending,
            Some(i) => i,
        };
        proof {
            lemma_index_of(self.pending@, window);
        }
        let mut pending: Vec<Pending> = Vec::new();
        std::mem::swap(&mut pending, &mut self.pending);
        match look {
            Look::Gone => {
                pending.remove(i);
                self.pending = pending;
                Settlement::Forgotten
            },
            Look::Titled(raw) => {
                let t = trimmed(raw.as_str());
                let p = pending[i];
                match classify(t.as_str()) {
                    Verdict::Undecided if p.tries < MAX_RECHECK_TRIES => {
                        pending.set(i, Pending { window, at: now, tries: p.tries + 1 });
                        self.pending = pending;
                        Settlement::Waiting
                    },
                    Verdict::Restore => {
                        pending.remove(i);
                        self.pending = pending;
                        let mut released: HashSet<usize> = HashSet::new();
                        std::mem::swap(&mut released, &mut self.released);
                        if released.len() >= RELEASED_MEMORY {
                            released.clear();
                        }
                        released.insert(window);
                        self.released = released;
                        Settlement::Restore { title: t }
                    },
                    _ => {
                        pending.remove(i);
                        self.pending = pending;
                        Settlement::StaysHidden { title: t }
                    },
                }
            },
        }
    }
}

// ------------------------------------------------------------------ laws ---

/// While the janitor is paused, a window event hides nothing and changes
/// nothing, and no window is taken back from the foreground.
pub proof fn law_paused_hides_nothing(
    m: JanitorModel,
    w: usize,
    id_object: i32,
    id_child: i32,
    unwanted: bool,
    now: u64,
)
    requires
        m.paused,
    ensures
        object_step(m, w, id_object, id_child, unwanted, now) == (m, ObjectAction::Ignore),
        !(foreground_step(m, w, unwanted).1 is TakeBack),
{
}

/// Only a window that is one to hide is ever hidden, and that takes both
/// conditions: a window of any class but Windows Terminal's -- a console a
/// person opened among them -- and a Windows Terminal whose owner does not
/// carry the broker's flag are never hidden, by an event or on taking focus.
pub proof fn law_only_blank_consoles_are_hidden(
    m: JanitorModel,
    w: usize,
    id_object: i32,
    id_child: i32,
    now: u64,
    kind: WindowKind,
    command_line: Option<Seq<u8>>,
)
    ensures
        kind != WindowKind::Terminal ==> !unwanted(kind, command_line),
        !(command_line matches Some(c) && has_embedding(c)) ==> !unwanted(kind, command_line),
        !unwanted(kind, command_line) ==> object_step(
            m,
            w,
            id_object,
            id_child,
            unwanted(kind, command_line),
            now,
        ) == (m, ObjectAction::Ignore),
        !unwanted(kind, command_line) ==> !(foreground_step(
            m,
            w,
            unwanted(kind, command_line),
        ).1 is TakeBack),
{
}

/// A window that has been given back is never hidden again while it is
/// remembered: neither its events nor its taking focus hide it.
pub proof fn law_released_stays_shown(
    m: JanitorModel,
    w: usize,
    id_object: i32,
    id_child: i32,
    unwanted: bool,
    now: u64,
)
    requires
        m.released.contains(w),
    ensures
        object_step(m, w, id_object, id_child, unwanted, now) == (m, ObjectAction::Ignore),
        !(foreground_step(m, w, unwanted).1 is TakeBack),
{
}

/// A window whose title shows it to be a real shell is given back: it stops
/// waiting and is remembered as given back.
pub proof fn law_restored_is_remembered(m: JanitorModel, w: usize, look: Option<Seq<char>>, now: u64)
    requires
        well_formed(m),
        settle_step(m, w, look, now).1 is Restore,
    ensures
        settle_step(m, w, look, now).0.released.contains(w),
        !is_pending(settle_step(m, w, look, now).0, w),
{
    lemma_index_of(m.pending, w);
    let i = index_of(m.pending, w);
    lemma_remove_forgets(m.pending, i, w);
}

/// Each hide is counted exactly once, and nothing but a hide changes the
/// count.
pub proof fn law_each_hide_counts_one(
    m: JanitorModel,
    w: usize,
    id_object: i32,
    id_child: i32,
    unwanted: bool,
    now: u64,
    look: Option<Seq<char>>,
)
    requires
        m.hidden < u64::MAX,
    ensures
        object_step(m, w, id_object, id_child, unwanted, now).0.hidden == m.hidden + if object_step(
            m,
            w,
            id_object,
            id_child,
            unwanted,
            now,
        ).1 is Hide {
            1int
        } else {
            0int
        },
        foreground_step(m, w, unwanted).0.hidden == m.hidden,
        settle_step(m, w, look, now).0.hidden == m.hidden,
{
}

/// Focus is never handed to the window being hidden, nor to no window at all.
pub proof fn law_focus_goes_elsewhere(previous: usize, hidden: usize)
    ensures
        focus_target(previous, hidden) matches Some(f) ==> f != hidden && f != 0,
{
}

/// Every hide hands focus back to the last real foreground window, unless
/// there is none or it is the hidden window itself -- and so does the second
/// event (the window being shown after it was created) for a window that is
/// already waiting to be looked at again: no hide ever leaves focus behind.
pub proof fn law_every_hide_hands_focus_back(
    m: JanitorModel,
    w: usize,
    now: u64,
    later: u64,
)
    requires
        w != 0,
        !m.paused,
        !m.released.contains(w),
    ensures
        object_step(m, w, OBJID_WINDOW, 0, true, now).1 == (ObjectAction::Hide {
            give_focus_to: if m.last_foreground != 0 && m.last_foreground != w {
                Some(m.last_foreground)
            } else {
                None
            },
        }),
        object_step(object_step(m, w, OBJID_WINDOW, 0, true, now).0, w, OBJID_WINDOW, 0, true, later).1
            == object_step(m, w, OBJID_WINDOW, 0, true, now).1,
        foreground_step(m, w, true).1 == (ForegroundAction::TakeBack {
            give_focus_to: if m.last_foreground != 0 && m.last_foreground != w {
                Some(m.last_foreground)
            } else {
                None
            },
        }),
{
}

/// The OS's placeholder title for a console whose client never named it is a
/// drive letter, a colon, a slash either way, anything at all, and `.exe` in
/// any case at the end -- spaces, dots and further slashes in between included,
/// as in `C:\Program Files\nodejs\node.exe`. Every such title is a bare
/// executable path, and nothing else is.
pub proof fn law_a_bare_exe_path_is_drive_anything_exe(
    drive: u8,
    slash: u8,
    middle: Seq<u8>,
    suffix: Seq<u8>,
    b: Seq<u8>,
)
    requires
        (65 <= drive <= 90) || (97 <= drive <= 122),
        slash == 92u8 || slash == 47u8,
        suffix.len() == 4,
        suffix[0] == 46u8,
        suffix[1] == 101u8 || suffix[1] == 69u8,
        suffix[2] == 120u8 || suffix[2] == 88u8,
        suffix[3] == 101u8 || suffix[3] == 69u8,
    ensures
        bare_exe_path(seq![drive, 58u8, slash] + middle + suffix),
        bare_exe_path(b) ==> b.len() >= 4 && ((65 <= b[0] <= 90) || (97 <= b[0] <= 122)) && b[1]
            == 58u8 && (b[2] == 92u8 || b[2] == 47u8) && b[b.len() - 4] == 46u8 && (b[b.len() - 3]
            == 101u8 || b[b.len() - 3] == 69u8) && (b[b.len() - 2] == 120u8 || b[b.len() - 2]
            == 88u8) && (b[b.len() - 1] == 101u8 || b[b.len() - 1] == 69u8),
{
    let whole = seq![drive, 58u8, slash] + middle + suffix;
    let n = whole.len();
    assert(whole.subrange(n - 4, n as int) =~= suffix);
    assert(lower(suffix[0]) == lower(46u8));
    assert(lower(suffix[1]) == lower(101u8));
    assert(lower(suffix[2]) == lower(120u8));
    assert(lower(suffix[3]) == lower(101u8));
    assert(eq_ignore_ascii_case(suffix, exe_suffix()));
    if bare_exe_path(b) {
        let t = b.subrange(b.len() - 4, b.len() as int);
        assert(lower(t[0]) == lower(exe_suffix()[0]));
        assert(lower(t[1]) == lower(exe_suffix()[1]));
        assert(lower(t[2]) == lower(exe_suffix()[2]));
        assert(lower(t[3]) == lower(exe_suffix()[3]));
    }
}

/// The second byte of an encoding that starts with two ASCII characters.
proof fn lemma_second_byte(t: Seq<char>)
    requires
        t.len() >= 2,
        (t[0] as u32) < 128,
        (t[1] as u32) < 128,
    ensures
        vstd::utf8::encode_utf8(t)[1] == ((t[1] as u32) & 0x7Fu32) as u8,
{
    let r = t.drop_first();
    assert(r[0] == t[1]);
    assert(vstd::utf8::encode_utf8(r) == vstd::utf8::encode_scalar(r[0] as u32)
        + vstd::utf8::encode_utf8(r.drop_first()));
    assert(vstd::utf8::encode_utf8(t) == vstd::utf8::encode_scalar(t[0] as u32)
        + vstd::utf8::encode_utf8(r));
}

/// A window still hidden whose title has settled into such a placeholder stays
/// hidden when it is looked at again, and is neither waited on again nor
/// remembered as given back.
pub proof fn law_a_placeholder_title_stays_hidden(
    m: JanitorModel,
    w: usize,
    raw: Seq<char>,
    now: u64,
    drive: u8,
    middle: Seq<u8>,
)
    requires
        well_formed(m),
        is_pending(m, w),
        (65 <= drive <= 90) || (97 <= drive <= 122),
        vstd::utf8::encode_utf8(trim(raw)) == seq![drive, 58u8, 92u8] + middle + seq![
            46u8,
            101u8,
            120u8,
            101u8,
        ],
    ensures
        verdict_of(trim(raw)) == Verdict::StayHidden,
        settle_step(m, w, Some(raw), now).1 == SettlementView::StaysHidden(trim(raw)),
        !is_pending(settle_step(m, w, Some(raw), now).0, w),
        settle_step(m, w, Some(raw), now).0.released == m.released,
{
    let t = trim(raw);
    law_a_bare_exe_path_is_drive_anything_exe(
        drive,
        92u8,
        middle,
        seq![46u8, 101u8, 120u8, 101u8],
        Seq::empty(),
    );
    reveal_strlit("Windows Terminal");
    reveal_strlit("Terminal");
    assert(vstd::utf8::encode_utf8(t).len() > 0);
    assert(t.len() > 0);
    assert(vstd::utf8::encode_utf8(t)[1] == 58u8);
    assert(t != "Windows Terminal"@) by {
        if t == "Windows Terminal"@ {
            lemma_second_byte(t);
            assert(t[1] == 'i');
            assert((105u32 & 0x7Fu32) as u8 == 105u8) by (bit_vector);
        }
    }
    assert(t != "Terminal"@) by {
        if t == "Terminal"@ {
            lemma_second_byte(t);
            assert(t[1] == 'e');
            assert((101u32 & 0x7Fu32) as u8 == 101u8) by (bit_vector);
        }
    }
    let i = index_of(m.pending, w);
    lemma_index_of(m.pending, w);
    lemma_remove_forgets(m.pending, i, w);
}

proof fn lemma_remove_forgets(p: Seq<Pending>, i: int, w: usize)
    requires
        0 <= i < p.len(),
        p[i].window == w,
        forall|a: int, b: int| 0 <= a < b < p.len() ==> #[trigger] p[a].window != #[trigger] p[b].window,
    ensures
        index_of(p.remove(i), w) < 0,
        forall|a: int, b: int|
            0 <= a < b < p.remove(i).len() ==> #[trigger] p.remove(i)[a].window
                != #[trigger] p.remove(i)[b].window,
{
    let q = p.remove(i);
    lemma_index_of(q, w);
    if index_of(q, w) >= 0 {
        let k = index_of(q, w);
        if k < i {
            assert(p[k].window == w);
        } else {
            assert(p[k + 1].window == w);
        }
    }
    assert forall|a: int, b: int| 0 <= a < b < q.len() implies #[trigger] q[a].window
        != #[trigger] q[b].window by {
        let a2 = if a < i { a } else { a + 1 };
        let b2 = if b < i { b } else { b + 1 };
        assert(q[a] == p[a2]);
        assert(q[b] == p[b2]);
    }
}

proof fn lemma_remember_bounded(r: Set<usize>, w: usize)
    requires
        r.finite(),
        r.len() <= RELEASED_MEMORY,
    ensures
        remember(r, w).finite(),
        remember(r, w).len() <= RELEASED_MEMORY,
        remember(r, w).contains(w),
{
    if r.len() < RELEASED_MEMORY {
        assert(r.insert(w).len() <= r.len() + 1);
    } else {
        assert(Set::<usize>::empty().insert(w).len() == 1);
    }
}

/// Every step keeps the janitor's invariant: each hidden window waits at most
/// once, no window is retried past the limit, and the memory of given-back
/// windows stays bounded.
pub proof fn law_steps_keep_well_formed(
    m: JanitorModel,
    w: usize,
    id_object: i32,
    id_child: i32,
    unwanted: bool,
    now: u64,
    look: Option<Seq<char>>,
)
    requires
        well_formed(m),
    ensures
        well_formed(object_step(m, w, id_object, id_child, unwanted, now).0),
        well_formed(foreground_step(m, w, unwanted).0),
        well_formed(settle_step(m, w, look, now).0),
{
    lemma_index_of(m.pending, w);
    if object_fires(m, w, id_object, id_child, unwanted) && !is_pending(m, w) {
        let q = m.pending.push(Pending { window: w, at: now, tries: 0 });
        assert forall|a: int, b: int| 0 <= a < b < q.len() implies #[trigger] q[a].window
            != #[trigger] q[b].window by {
            if b == q.len() - 1 {
                assert(q[a] == m.pending[a]);
            } else {
                assert(q[a] == m.pending[a] && q[b] == m.pending[b]);
            }
        }
        assert forall|a: int| 0 <= a < q.len() implies #[trigger] q[a].tries <= MAX_RECHECK_TRIES
            && q[a].window != 0 by {
            if a < q.len() - 1 {
                assert(q[a] == m.pending[a]);
            }
        }
    }
    let i = index_of(m.pending, w);
    if i >= 0 {
        lemma_remove_forgets(m.pending, i, w);
        lemma_remember_bounded(m.released, w);
        let q = m.pending.remove(i);
        assert forall|a: int| 0 <= a < q.len() implies #[trigger] q[a].tries <= MAX_RECHECK_TRIES
            && q[a].window != 0 by {
            if a < i {
                assert(q[a] == m.pending[a]);
            } else {
                assert(q[a] == m.pending[a + 1]);
            }
        }
        let p = m.pending[i];
        let u = m.pending.update(i, Pending { window: w, at: now, tries: (p.tries + 1) as u32 });
        assert forall|a: int, b: int| 0 <= a < b < u.len() implies #[trigger] u[a].window
            != #[trigger] u[b].window by {
            assert(u[a].window == m.pending[a].window);
            assert(u[b].window == m.pending[b].window);
        }
    }
}

/// Looking at a waiting window again either decides it, and it stops waiting,
/// or counts one more try against the limit: no window is looked at forever.
pub proof fn law_rechecks_end(m: JanitorModel, w: usize, look: Option<Seq<char>>, now: u64)
    requires
        well_formed(m),
        is_pending(m, w),
    ensures
        ({
            let (m2, s) = settle_step(m, w, look, now);
            &&& s is Waiting ==> is_pending(m2, w) && m2.pending[index_of(m2.pending, w)].tries
                == m.pending[index_of(m.pending, w)].tries + 1 <= MAX_RECHECK_TRIES
            &&& !(s is Waiting) ==> !is_pending(m2, w)
        }),
{
    lemma_index_of(m.pending, w);
    let i = index_of(m.pending, w);
    lemma_remove_forgets(m.pending, i, w);
    let p = m.pending[i];
    let u = m.pending.update(i, Pending { window: w, at: now, tries: (p.tries + 1) as u32 });
    lemma_index_of(u, w);
    if index_of(u, w) != i {
        assert(u[i].window == w);
        let k = index_of(u, w);
        if k >= 0 {
            assert(m.pending[k].window == w);
        }
    }
}

} // verus!
