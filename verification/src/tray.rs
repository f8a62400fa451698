//! The tray menu's commands, and the tooltip text as the shell's fixed field
//! holds it.

use vstd::prelude::*;

use crate::text::{chars_of, encode_utf16_char, lemma_utf16_push, string_from, utf16, utf16_of};

verus! {

broadcast use vstd::string::group_string_axioms;

/// What the user picked from the tray menu.
#[derive(Debug, Clone, Copy, PartialEq, Eq, Structural)]
pub enum Choice {
    OpenSettings,
    TogglePause,
    OpenLog,
    Exit,
}

/// Menu command ids. They are what the menu returns, not messages, so the
/// values only have to be distinct and not zero, which is a dismissed menu.
pub const CMD_SETTINGS: u32 = 1;
pub const CMD_TOGGLE_PAUSE: u32 = 2;
pub const CMD_OPEN_LOG: u32 = 3;
pub const CMD_EXIT: u32 = 4;

/// `szTip` is a fixed 128-unit field the shell reads as NUL-terminated, so the
/// usable limit is one unit less.
pub const TIP_UNITS: usize = 128;

pub open spec fn command_of(c: Choice) -> u32 {
    match c {
        Choice::OpenSettings => CMD_SETTINGS,
        Choice::TogglePause => CMD_TOGGLE_PAUSE,
        Choice::OpenLog => CMD_OPEN_LOG,
        Choice::Exit => CMD_EXIT,
    }
}

pub open spec fn choice_of(cmd: i32) -> Option<Choice> {
    if cmd == 1 {
        Some(Choice::OpenSettings)
    } else if cmd == 2 {
        Some(Choice::TogglePause)
    } else if cmd == 3 {
        Some(Choice::OpenLog)
    } else if cmd == 4 {
        Some(Choice::Exit)
    } else {
        None
    }
}

/// The command id a choice is given in the menu.
pub fn command_id(c: Choice) -> (id: u32)
    ensures
        id == command_of(c),
{
    match c {
        Choice::OpenSettings => CMD_SETTINGS,
        Choice::TogglePause => CMD_TOGGLE_PAUSE,
        Choice::OpenLog => CMD_OPEN_LOG,
        Choice::Exit => CMD_EXIT,
    }
}

/// Translate a command id into a choice. Zero is "the menu was dismissed",
/// which is not a choice.
pub fn choice(cmd: i32) -> (c: Option<Choice>)
    ensures
        c == choice_of(cmd),
{
    if cmd == 1 {
        Some(Choice::OpenSettings)
    } else if cmd == 2 {
        Some(Choice::TogglePause)
    } else if cmd == 3 {
        Some(Choice::OpenLog)
    } else if cmd == 4 {
        Some(Choice::Exit)
    } else {
        None
    }
}

/// One line of the tray menu.
#[derive(Debug, PartialEq, Eq)]
pub enum MenuItem {
    Command { id: u32, label: String },
    Separator,
}

pub enum MenuItemView {
    Command(u32, Seq<char>),
    Separator,
}

impl View for MenuItem {
    type V = MenuItemView;

    open spec fn view(&self) -> MenuItemView {
        match self {
            MenuItem::Command { id, label } => MenuItemView::Command(*id, label@),
            MenuItem::Separator => MenuItemView::Separator,
        }
    }
}

/// The menu as it is shown: Settings, the pause toggle (which says what it
/// will do), Open log, a separator, and Exit.
pub open spec fn menu_of(paused: bool) -> Seq<MenuItemView> {
    seq![
        MenuItemView::Command(CMD_SETTINGS, "Settings..."@),
        MenuItemView::Command(
            CMD_TOGGLE_PAUSE,
            if paused {
                "Resume hiding"@
            } else {
                "Pause hiding"@
            },
        ),
        MenuItemView::Command(CMD_OPEN_LOG, "Open log"@),
        MenuItemView::Separator,
        MenuItemView::Command(CMD_EXIT, "Exit"@),
    ]
}

/// The items of the tray menu.
pub fn menu(paused: bool) -> (items: Vec<MenuItem>)
    ensures
        items@.map_values(|m: MenuItem| m@) == menu_of(paused),
{
    let mut items: Vec<MenuItem> = Vec::new();
    items.push(MenuItem::Command { id: CMD_SETTINGS, label: string_from("Settings...") });
    let toggle = if paused {
        string_from("Resume hiding")
    } else {
        string_from("Pause hiding")
    };
    items.push(MenuItem::Command { id: CMD_TOGGLE_PAUSE, label: toggle });
    items.push(MenuItem::Command { id: CMD_OPEN_LOG, label: string_from("Open log") });
    items.push(MenuItem::Separator);
    items.push(MenuItem::Command { id: CMD_EXIT, label: string_from("Exit") });
    assert(items@.map_values(|m: MenuItem| m@) =~= menu_of(paused));
    items
}

/// The mouse messages the shell reports for the icon (classic semantics: the
/// raw message arrives in `lparam`).
pub const WM_LBUTTONUP: u32 = 0x0202;
pub const WM_LBUTTONDBLCLK: u32 = 0x0203;
pub const WM_RBUTTONUP: u32 = 0x0205;

/// What a click on the tray icon asks for.
#[derive(Debug, Clone, Copy, PartialEq, Eq, Structural)]
pub enum TrayClick {
    /// Left click or double click: the settings window.
    OpenSettings,
    /// Right click: the menu.
    ShowMenu,
    Nothing,
}

pub open spec fn tray_click_of(mouse: u32) -> TrayClick {
    if mouse == WM_LBUTTONUP || mouse == WM_LBUTTONDBLCLK {
        TrayClick::OpenSettings
    } else if mouse == WM_RBUTTONUP {
        TrayClick::ShowMenu
    } else {
        TrayClick::Nothing
    }
}

/// The tray notification, by the mouse message it carries.
pub fn tray_click(mouse: u32) -> (c: TrayClick)
    ensures
        c == tray_click_of(mouse),
{
    if mouse == WM_LBUTTONUP || mouse == WM_LBUTTONDBLCLK {
        TrayClick::OpenSettings
    } else if mouse == WM_RBUTTONUP {
        TrayClick::ShowMenu
    } else {
        TrayClick::Nothing
    }
}

/// The tray icon answers the mouse as the notification area's own icons do: a
/// left click (`WM_LBUTTONUP`, 0x0202) or a double click (`WM_LBUTTONDBLCLK`,
/// 0x0203) opens Settings, a right click (`WM_RBUTTONUP`, 0x0205) shows the
/// menu, and every other message does nothing.
pub proof fn law_left_opens_settings_right_shows_the_menu(mouse: u32)
    ensures
        (tray_click_of(mouse) == TrayClick::OpenSettings) <==> (mouse == 0x0202u32 || mouse
            == 0x0203u32),
        (tray_click_of(mouse) == TrayClick::ShowMenu) <==> mouse == 0x0205u32,
        (tray_click_of(mouse) == TrayClick::Nothing) <==> !(mouse == 0x0202u32 || mouse
            == 0x0203u32 || mouse == 0x0205u32),
{
}

// --------------------------------------------------------------- tooltip ---

/// How many characters of `s` from `k` on still fit, `n` units being used:
/// characters are taken whole, up to the first that would not leave room for
/// the terminating NUL.
pub open spec fn tip_count(s: Seq<char>, k: int, n: int) -> int
    decreases s.len() - k,
{
    if k < 0 || k >= s.len() || n + utf16_of(s[k]).len() >= TIP_UNITS {
        k
    } else {
        tip_count(s, k + 1, n + utf16_of(s[k]).len())
    }
}

/// The units a tooltip leaves in the field before its NUL.
pub open spec fn tip_units(s: Seq<char>) -> Seq<u16> {
    utf16(s.take(tip_count(s, 0, 0)))
}

/// Copy a tooltip into the fixed field, NUL-terminated.
///
/// The field lives inside the shell's struct, so an over-long tooltip cannot
/// be an error and must not panic; it is cut at the last whole character that
/// fits. Cutting per `char` rather than per UTF-16 unit keeps a surrogate pair
/// from being split in half.
pub fn write_tip(field: &mut [u16; 128], text: &str)
    ensures
        ({
            let u = tip_units(text@);
            &&& u.len() < TIP_UNITS
            &&& final(field)@.subrange(0, u.len() as int) == u
            &&& final(field)@[u.len() as int] == 0u16
            &&& forall|i: int|
                u.len() < i < TIP_UNITS ==> #[trigger] final(field)@[i] == old(field)@[i]
        }),
{
    let v = chars_of(text);
    let mut n: usize = 0;
    let mut k: usize = 0;
    while k < v.len()
        invariant_except_break
            v@ == text@,
            0 <= k <= v@.len(),
            n == utf16(v@.take(k as int)).len(),
            n < TIP_UNITS,
            field@.subrange(0, n as int) == utf16(v@.take(k as int)),
            forall|i: int| n <= i < TIP_UNITS ==> #[trigger] field@[i] == old(field)@[i],
            tip_count(v@, 0, 0) == tip_count(v@, k as int, n as int),
        ensures
            v@ == text@,
            0 <= k <= v@.len(),
            n == utf16(v@.take(k as int)).len(),
            n < TIP_UNITS,
            field@.subrange(0, n as int) == utf16(v@.take(k as int)),
            forall|i: int| n <= i < TIP_UNITS ==> #[trigger] field@[i] == old(field)@[i],
            tip_count(v@, 0, 0) == k,
        decreases v@.len() - k,
    {
        let (hi, lo) = encode_utf16_char(v[k]);
        let units: usize = match lo {
            Some(_) => 2,
            None => 1,
        };
        if n + units >= TIP_UNITS {
            break;
        }
        proof {
            assert(v@.take(k + 1) =~= v@.take(k as int).push(v@[k as int]));
            lemma_utf16_push(v@.take(k as int), v@[k as int]);
        }
        field[n] = hi;
        match lo {
            Some(l) => {
                field[n + 1] = l;
            },
            None => {},
        }
        assert(field@.subrange(0, (n + units) as int) =~= utf16(v@.take(k + 1)));
        n = n + units;
        k = k + 1;
    }
    field[n] = 0;
    proof {
        assert(v@.take(k as int) =~= text@.take(tip_count(text@, 0, 0)));
        assert(field@.subrange(0, n as int) =~= tip_units(text@));
    }
}

// ------------------------------------------------------------------ laws ---

/// Every command on the menu comes back as the choice it stands for, and a
/// dismissed menu is no choice at all.
pub proof fn law_commands_round_trip(c: Choice)
    ensures
        choice_of(command_of(c) as i32) == Some(c),
        choice_of(0) is None,
{
}

/// A tooltip that fits is written whole: nothing is cut from a text of fewer
/// than 128 UTF-16 units.
pub proof fn law_short_tips_are_whole(s: Seq<char>)
    requires
        utf16(s).len() < TIP_UNITS,
    ensures
        tip_units(s) == utf16(s),
{
    lemma_tip_whole(s, 0, 0);
    assert(s.take(s.len() as int) =~= s);
}

proof fn lemma_utf16_prefix(s: Seq<char>, k: int)
    requires
        0 <= k <= s.len(),
    ensures
        utf16(s.take(k)).len() <= utf16(s).len(),
    decreases s.len() - k,
{
    if k < s.len() {
        lemma_utf16_prefix(s, k + 1);
        assert(s.take(k + 1) =~= s.take(k).push(s[k]));
        lemma_utf16_push(s.take(k), s[k]);
    } else {
        assert(s.take(k) =~= s);
    }
}

proof fn lemma_tip_whole(s: Seq<char>, k: int, n: int)
    requires
        0 <= k <= s.len(),
        n == utf16(s.take(k)).len(),
        utf16(s).len() < TIP_UNITS,
    ensures
        tip_count(s, k, n) == s.len(),
    decreases s.len() - k,
{
    if k < s.len() {
        assert(s.take(k + 1) =~= s.take(k).push(s[k]));
        lemma_utf16_push(s.take(k), s[k]);
        lemma_utf16_prefix(s, k + 1);
        lemma_tip_whole(s, k + 1, n + utf16_of(s[k]).len());
    }
}

} // verus!
