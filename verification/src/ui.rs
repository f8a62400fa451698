//! The figures and words the settings surface shows, and the metrics it is
//! laid out on. The drawing itself is GDI's, in the program around this
//! library.

use vstd::prelude::*;

use crate::text::{decimal, digit, padded, push_char, push_padded, push_str, string_from};
use crate::update::digits_value;

verus! {

broadcast use vstd::string::group_string_axioms;

// ---------------------------------------------------------------- metrics ---
//
// Logical pixels at 96dpi.

/// The plate: the fixed 720x344 logical client the head, fields and footer
/// bands are laid out on.
pub const W: i32 = 720;
pub const H: i32 = 344;
pub const PAD: i32 = 44;

/// The rail: band height, and the frame cell that hangs in it.
pub const STRIP_H: i32 = 84;

/// The whole surface: the rail of frames across the top, the plate below it.
pub const SURFACE_H: i32 = STRIP_H + H;
pub const CELL_W: i32 = 58;
pub const CELL_EDGE: i32 = 6;
pub const CELL_TOP: i32 = 20;
pub const CELL_BOTTOM: i32 = 72;
/// Slots across the strip. The last one is clipped by the window edge.
pub const CELLS: i32 = 13;

/// The counter's wheels.
pub const DIGIT_W: i32 = 40;
pub const DIGIT_GAP: i32 = 3;
pub const DIGIT_H: i32 = 58;

/// The autostart punch.
pub const PUNCH_X: i32 = 452;
pub const PUNCH_Y: i32 = 248;
pub const PUNCH_W: i32 = 64;
pub const PUNCH_H: i32 = 36;

/// The plate's bands, top to bottom, in the plate's own coordinates.
pub const HEAD_TOP: i32 = 20;
pub const HEAD_BOTTOM: i32 = 128;
pub const FIELDS_TOP: i32 = 144;
pub const FIELDS_BOTTOM: i32 = 241;
pub const FOOTER_TOP: i32 = 284;
pub const FOOTER_BOTTOM: i32 = 314;

/// The bands follow one another down the plate and all of them fit on it, and
/// the punch, placed on the surface, sits inside the fields band.
pub proof fn law_the_bands_fit_the_plate()
    ensures
        0 <= HEAD_TOP < HEAD_BOTTOM < FIELDS_TOP < FIELDS_BOTTOM < FOOTER_TOP < FOOTER_BOTTOM <= H,
        STRIP_H + FIELDS_TOP <= PUNCH_Y,
        PUNCH_Y + PUNCH_H <= STRIP_H + FIELDS_BOTTOM,
        PUNCH_X + PUNCH_W <= W - PAD,
{
}

/// The measure the paragraph is held to.
pub const PARAGRAPH_MEASURE: i32 = 430;

/// Where the counter's housing starts for `n` wheels, its right edge on the
/// right margin.
pub open spec fn housing_left(n: int) -> int {
    W - PAD - (n * DIGIT_W + (n - 1) * DIGIT_GAP)
}

/// The paragraph is held to a fixed measure, and that measure stops short of
/// the widest counter a session can realistically reach, three wheels.
pub proof fn law_paragraph_stops_before_the_counter()
    ensures
        PAD + PARAGRAPH_MEASURE < housing_left(3),
{
}

// ---------------------------------------------------------------- counter ---

/// A mechanical counter's wheels, zero-padded to at least three and growing
/// as the count does. `000` is the honest reading for a session that has
/// hidden nothing yet.
pub fn counter_digits(hidden: u64) -> (s: String)
    ensures
        s@ == padded(hidden as nat, 3),
{
    let mut s = String::new();
    push_padded(&mut s, hidden, 3);
    assert(s@ =~= padded(hidden as nat, 3));
    s
}

proof fn lemma_decimal_value(n: nat)
    ensures
        digits_value(decimal(n)) == n,
        forall|i: int| 0 <= i < decimal(n).len() ==> '0' <= #[trigger] decimal(n)[i] <= '9',
    decreases n,
{
    if n >= 10 {
        lemma_decimal_value(n / 10);
        assert(decimal(n).drop_last() == decimal(n / 10));
        assert((digit((n % 10) as int) as u32) == 48 + n % 10);
        assert(decimal(n).last() == digit((n % 10) as int));
        assert(digits_value(decimal(n)) == digits_value(decimal(n / 10)) * 10 + n % 10);
        assert((n / 10) * 10 + n % 10 == n);
        assert forall|i: int| 0 <= i < decimal(n).len() implies '0' <= #[trigger] decimal(n)[i]
            <= '9' by {
            if i < decimal(n).len() - 1 {
                assert(decimal(n)[i] == decimal(n / 10)[i]);
            }
        }
    } else {
        assert(decimal(n).drop_last() =~= Seq::<char>::empty());
        assert((digit(n as int) as u32) == 48 + n);
        assert(decimal(n).last() == digit(n as int));
        assert(digits_value(decimal(n)) == digits_value(decimal(n).drop_last()) * 10 + n);
    }
}

proof fn lemma_leading_zeros(z: Seq<char>, d: Seq<char>)
    requires
        forall|i: int| 0 <= i < z.len() ==> #[trigger] z[i] == '0',
    ensures
        digits_value(z + d) == digits_value(d),
    decreases d.len(),
{
    if d.len() == 0 {
        assert(z + d =~= z);
        lemma_zeros_value(z);
    } else {
        assert((z + d).drop_last() =~= z + d.drop_last());
        lemma_leading_zeros(z, d.drop_last());
    }
}

proof fn lemma_zeros_value(z: Seq<char>)
    requires
        forall|i: int| 0 <= i < z.len() ==> #[trigger] z[i] == '0',
    ensures
        digits_value(z) == 0,
    decreases z.len(),
{
    if z.len() > 0 {
        lemma_zeros_value(z.drop_last());
    }
}

/// The counter reads the count: its wheels are at least three, every one a
/// digit, and read as a number they give back exactly the windows hidden.
pub proof fn law_counter_reads_the_count(n: u64)
    ensures
        padded(n as nat, 3).len() >= 3,
        forall|i: int|
            0 <= i < padded(n as nat, 3).len() ==> '0' <= #[trigger] padded(n as nat, 3)[i] <= '9',
        digits_value(padded(n as nat, 3)) == n,
{
    lemma_decimal_value(n as nat);
    let d = decimal(n as nat);
    if d.len() < 3 {
        let z = Seq::new((3 - d.len()) as nat, |i: int| '0');
        lemma_leading_zeros(z, d);
        assert forall|i: int| 0 <= i < padded(n as nat, 3).len() implies '0' <= #[trigger] padded(
            n as nat,
            3,
        )[i] <= '9' by {
            if i >= z.len() {
                assert(padded(n as nat, 3)[i] == d[i - z.len()]);
            }
        }
    }
}

// ------------------------------------------------------------------ times ---

pub open spec fn span_text(s: nat) -> Seq<char> {
    if s >= 3600 {
        decimal(s / 3600) + "h "@ + padded((s % 3600) / 60, 2) + "m"@
    } else if s >= 60 {
        decimal(s / 60) + "m "@ + padded(s % 60, 2) + "s"@
    } else {
        decimal(s) + "s"@
    }
}

/// How long the session has run: `42s`, `3m 07s`, `2h 05m`.
pub fn span(secs: u64) -> (t: String)
    ensures
        t@ == span_text(secs as nat),
{
    let mut t = String::new();
    if secs >= 3600 {
        push_padded(&mut t, secs / 3600, 0);
        push_str(&mut t, "h ");
        push_padded(&mut t, (secs % 3600) / 60, 2);
        push_str(&mut t, "m");
    } else if secs >= 60 {
        push_padded(&mut t, secs / 60, 0);
        push_str(&mut t, "m ");
        push_padded(&mut t, secs % 60, 2);
        push_str(&mut t, "s");
    } else {
        push_padded(&mut t, secs, 0);
        push_str(&mut t, "s");
    }
    proof {
        lemma_padded_zero(secs as nat);
        lemma_padded_zero(secs as nat / 3600);
        lemma_padded_zero(secs as nat / 60);
    }
    assert(t@ =~= span_text(secs as nat));
    t
}

proof fn lemma_padded_zero(n: nat)
    ensures
        padded(n, 0) == decimal(n),
{
}

/// The wall-clock time of day, in seconds, at which a session that has run
/// `elapsed` seconds started, given the time of day now.
pub open spec fn started_at(hour: u16, minute: u16, second: u16, elapsed: u64) -> int {
    (hour * 3600 + minute * 60 + second - elapsed) % 86400
}

pub open spec fn clock_text(s: int) -> Seq<char> {
    padded((s / 3600) as nat, 2) + ":"@ + padded(((s % 3600) / 60) as nat, 2)
}

/// `HH:MM` of the wall-clock time the session started, from the local time
/// now and how long the session has run.
pub fn clock_at(hour: u16, minute: u16, second: u16, elapsed: u64) -> (t: String)
    ensures
        t@ == clock_text(started_at(hour, minute, second, elapsed)),
{
    let now: u64 = hour as u64 * 3600 + minute as u64 * 60 + second as u64;
    let back = elapsed % 86400;
    let s: u64 = if now % 86400 >= back {
        now % 86400 - back
    } else {
        now % 86400 + 86400 - back
    };
    assert(s == started_at(hour, minute, second, elapsed)) by {
        let k = hour * 3600 + minute * 60 + second - elapsed;
        assert(elapsed == (elapsed / 86400) * 86400 + back);
        assert(now == (now / 86400) * 86400 + now % 86400);
        assert(k == (now / 86400 - elapsed / 86400) * 86400 + (s as int) - (if now % 86400
            >= back {
            0int
        } else {
            86400int
        }));
        vstd::arithmetic::div_mod::lemma_fundamental_div_mod_converse(
            k,
            86400,
            if now % 86400 >= back {
                now / 86400 - elapsed / 86400
            } else {
                now / 86400 - elapsed / 86400 - 1
            },
            s as int,
        );
    }
    let mut t = String::new();
    push_padded(&mut t, s / 3600, 2);
    push_str(&mut t, ":");
    push_padded(&mut t, (s % 3600) / 60, 2);
    assert(t@ =~= clock_text(s as int));
    t
}

// ------------------------------------------------------------------ grain ---

/// The grain hash: deterministic in its inputs, so the bench does not crawl
/// between repaints.
pub open spec fn scatter_of(x: i32, y: i32, salt: u32) -> u32 {
    let h = vstd::wrapping::u32_specs::wrapping_add(
        vstd::wrapping::u32_specs::wrapping_add(
            vstd::wrapping::u32_specs::wrapping_mul(x as u32, 0x1657_6D5B),
            vstd::wrapping::u32_specs::wrapping_mul(y as u32, 0x27D4_EB2D),
        ),
        vstd::wrapping::u32_specs::wrapping_mul(salt, 0x9E37_79B9),
    );
    let h1 = h ^ (h >> 15u32);
    let h2 = vstd::wrapping::u32_specs::wrapping_mul(h1, 0x2545_F491);
    h2 ^ (h2 >> 13u32)
}

pub fn scatter(x: i32, y: i32, salt: u32) -> (h: u32)
    ensures
        h == scatter_of(x, y, salt),
{
    let mut h = (x as u32).wrapping_mul(0x1657_6D5B).wrapping_add(
        (y as u32).wrapping_mul(0x27D4_EB2D),
    ).wrapping_add(salt.wrapping_mul(0x9E37_79B9));
    h ^= h >> 15;
    h = h.wrapping_mul(0x2545_F491);
    h ^ (h >> 13)
}

/// What one pixel of the ground carries.
#[derive(Debug, Clone, Copy, PartialEq, Eq, Structural)]
pub enum Grain {
    /// Bare film base.
    Base,
    /// A speck of grain.
    Speck,
    /// The rare speck that catches light.
    Dust,
}

pub open spec fn grain_of(x: i32, y: i32) -> Grain {
    let n = scatter_of(x, y, 1);
    if n % 101 >= 3 {
        Grain::Base
    } else if n % 1301 == 0 {
        Grain::Dust
    } else {
        Grain::Speck
    }
}

/// Film grain and the occasional dust speck at one pixel.
pub fn grain_at(x: i32, y: i32) -> (g: Grain)
    ensures
        g == grain_of(x, y),
{
    let n = scatter(x, y, 1);
    if n % 101 >= 3 {
        Grain::Base
    } else if n % 1301 == 0 {
        Grain::Dust
    } else {
        Grain::Speck
    }
}

// ------------------------------------------------------------------ words ---

/// The 16 bits at `bit` of `v`, read as a signed number.
pub open spec fn signed16(w: u16) -> int {
    if w < 0x8000 {
        w as int
    } else {
        w - 0x1_0000
    }
}

/// The `bit`-th 16-bit word of a packed message parameter, sign-extended.
pub fn word(v: isize, bit: u32) -> (r: i32)
    requires
        bit < 32,
    ensures
        r == signed16((v >> bit) as u16),
{
    let w = (v >> bit) as u16;
    let r = w as i16 as i32;
    assert(r == signed16(w)) by (bit_vector)
        requires
            r == w as i16 as i32,
    ;
    r
}

/// `word` for an unsigned parameter.
pub fn uword(v: usize, bit: u32) -> (r: i32)
    requires
        bit < 32,
    ensures
        r == signed16((v >> bit) as u16),
{
    let w = (v >> bit) as u16;
    let r = w as i16 as i32;
    assert(r == signed16(w)) by (bit_vector)
        requires
            r == w as i16 as i32,
    ;
    r
}

// ------------------------------------------------------------------ words ---

/// What the "last cut" line reads.
pub open spec fn last_cut_of(hidden: u64, last_title: Seq<char>) -> Seq<char> {
    if hidden == 0 {
        "nothing cut yet"@
    } else if last_title.len() == 0 {
        "an untitled console"@
    } else {
        last_title
    }
}

/// The "last cut" line: nothing yet, or the title of the last window hidden.
pub fn last_cut(hidden: u64, last_title: &str) -> (t: String)
    ensures
        t@ == last_cut_of(hidden, last_title@),
{
    if hidden == 0 {
        string_from("nothing cut yet")
    } else if last_title.unicode_len() == 0 {
        string_from("an untitled console")
    } else {
        string_from(last_title)
    }
}

pub open spec fn counter_caption_of(paused: bool) -> Seq<Seq<char>> {
    if paused {
        seq!["PAUSED"@, "NOT COUNTING"@]
    } else {
        seq!["HIDDEN THIS SESSION"@]
    }
}

/// The label over the counter. Paused, the wheels stop turning, and the label
/// says why the number is standing still.
pub fn counter_caption(paused: bool) -> (c: Vec<String>)
    ensures
        c@.map_values(|s: String| s@) == counter_caption_of(paused),
{
    let mut c: Vec<String> = Vec::new();
    if paused {
        c.push(string_from("PAUSED"));
        c.push(string_from("NOT COUNTING"));
    } else {
        c.push(string_from("HIDDEN THIS SESSION"));
    }
    assert(c@.map_values(|s: String| s@) =~= counter_caption_of(paused));
    c
}

pub open spec fn on_off(on: bool) -> Seq<char> {
    if on {
        "ON"@
    } else {
        "OFF"@
    }
}

pub open spec fn small_print_of(error: Option<Seq<char>>, autostart: bool) -> Seq<Seq<char>> {
    match error {
        Some(why) => seq![
            "Couldn't change it: "@ + why,
            "Ternitor is still "@ + on_off(autostart) + "."@,
        ],
        None => seq!["Runs Ternitor when you sign in. Adds one"@, "value to the registry, under HKCU."@],
    }
}

/// The two lines of small print under the punch. A refused toggle explains
/// itself there, and says the state it is still in.
pub fn small_print(error: Option<&str>, autostart: bool) -> (lines: Vec<String>)
    ensures
        lines@.map_values(|s: String| s@) == small_print_of(
            match error {
                Some(e) => Some(e@),
                None => None,
            },
            autostart,
        ),
{
    let mut lines: Vec<String> = Vec::new();
    match error {
        Some(why) => {
            let mut a = string_from("Couldn't change it: ");
            push_str(&mut a, why);
            lines.push(a);
            let mut b = string_from("Ternitor is still ");
            push_str(
                &mut b,
                if autostart {
                    "ON"
                } else {
                    "OFF"
                },
            );
            push_str(&mut b, ".");
            lines.push(b);
        },
        None => {
            lines.push(string_from("Runs Ternitor when you sign in. Adds one"));
            lines.push(string_from("value to the registry, under HKCU."));
        },
    }
    assert(lines@.map_values(|s: String| s@) =~= small_print_of(
        match error {
            Some(e) => Some(e@),
            None => None,
        },
        autostart,
    ));
    lines
}

/// The first `n` characters of `text` and an ellipsis: what `fit` tries when
/// the whole text does not fit its measure.
pub fn ellipsized(text: &str, n: usize) -> (t: String)
    requires
        n <= text@.len(),
    ensures
        t@ == text@.take(n as int).push('\u{2026}'),
{
    let v = crate::text::chars_of(text);
    let mut t = crate::text::string_of(&v, 0, n);
    push_char(&mut t, '\u{2026}');
    t
}

// ------------------------------------------------------------- the punch ---

/// The autostart punch's interaction state.
#[derive(Debug, Clone, Copy, PartialEq, Eq, Structural)]
pub struct PunchState {
    /// The pointer is over the punch.
    pub hover: bool,
    /// The button went down on the punch and has not come up yet.
    pub pressed: bool,
    /// The keyboard is driving, so the focus ring shows.
    pub focus: bool,
}

/// What reaches the settings window that the punch answers to.
#[derive(Debug, Clone, Copy, PartialEq, Eq, Structural)]
pub enum PunchEvent {
    /// The pointer moved; `over` is whether it is over the punch now.
    MouseMove { over: bool },
    MouseLeave,
    ButtonDown { over: bool },
    ButtonUp { over: bool },
    SetFocus,
    /// The window's activation changed; `inactive` when it lost it.
    Activate { inactive: bool },
    /// A key went down, by virtual-key code.
    Key { code: u16 },
}

/// What the settings window does in answer.
#[derive(Debug, Clone, Copy, PartialEq, Eq, Structural)]
pub struct PunchReaction {
    /// Repaint the window.
    pub redraw: bool,
    /// Flip Start with Windows.
    pub toggle: bool,
    /// Hide the window (back to the tray).
    pub hide: bool,
    /// Not handled here: hand the message to the default procedure.
    pub pass_on: bool,
}

pub const VK_RETURN: u16 = 0x0D;
pub const VK_ESCAPE: u16 = 0x1B;
pub const VK_SPACE: u16 = 0x20;

pub open spec fn reaction(redraw: bool, toggle: bool, hide: bool, pass_on: bool) -> PunchReaction {
    PunchReaction { redraw, toggle, hide, pass_on }
}

pub open spec fn punch_step_of(s: PunchState, e: PunchEvent) -> (PunchState, PunchReaction) {
    match e {
        PunchEvent::MouseMove { over } => (
            PunchState { hover: over, ..s },
            reaction(s.hover != over, false, false, false),
        ),
        PunchEvent::MouseLeave => (
            PunchState { hover: false, ..s },
            reaction(s.hover, false, false, false),
        ),
        PunchEvent::ButtonDown { over } => if over {
            (PunchState { pressed: true, ..s }, reaction(true, false, false, false))
        } else {
            (s, reaction(false, false, false, false))
        },
        PunchEvent::ButtonUp { over } => if s.pressed && over {
            (
                PunchState { pressed: false, focus: true, ..s },
                reaction(true, true, false, false),
            )
        } else {
            (PunchState { pressed: false, ..s }, reaction(true, false, false, false))
        },
        PunchEvent::SetFocus => (PunchState { focus: true, ..s }, reaction(true, false, false, false)),
        PunchEvent::Activate { inactive } => if inactive {
            (PunchState { focus: false, ..s }, reaction(s.focus, false, false, false))
        } else {
            (s, reaction(false, false, false, false))
        },
        PunchEvent::Key { code } => if code == VK_SPACE || code == VK_RETURN {
            (s, reaction(true, true, false, false))
        } else if code == VK_ESCAPE {
            (s, reaction(false, false, true, false))
        } else {
            (s, reaction(false, false, false, true))
        },
    }
}

/// How the punch answers one message: the pointer arms and releases it, a
/// click that starts and ends on it flips it, Space and Enter flip it, Escape
/// sends the window back to the tray.
pub fn punch_step(state: &mut PunchState, event: PunchEvent) -> (r: PunchReaction)
    ensures
        (*final(state), r) == punch_step_of(*old(state), event),
{
    match event {
        PunchEvent::MouseMove { over } => {
            let changed = state.hover != over;
            state.hover = over;
            PunchReaction { redraw: changed, toggle: false, hide: false, pass_on: false }
        },
        PunchEvent::MouseLeave => {
            let was = state.hover;
            state.hover = false;
            PunchReaction { redraw: was, toggle: false, hide: false, pass_on: false }
        },
        PunchEvent::ButtonDown { over } => {
            if over {
                state.pressed = true;
            }
            PunchReaction { redraw: over, toggle: false, hide: false, pass_on: false }
        },
        PunchEvent::ButtonUp { over } => {
            let was = state.pressed;
            state.pressed = false;
            let click = was && over;
            if click {
                state.focus = true;
            }
            PunchReaction { redraw: true, toggle: click, hide: false, pass_on: false }
        },
        PunchEvent::SetFocus => {
            state.focus = true;
            PunchReaction { redraw: true, toggle: false, hide: false, pass_on: false }
        },
        PunchEvent::Activate { inactive } => {
            let redraw = inactive && state.focus;
            if inactive {
                state.focus = false;
            }
            PunchReaction { redraw, toggle: false, hide: false, pass_on: false }
        },
        PunchEvent::Key { code } => {
            if code == VK_SPACE || code == VK_RETURN {
                PunchReaction { redraw: true, toggle: true, hide: false, pass_on: false }
            } else if code == VK_ESCAPE {
                PunchReaction { redraw: false, toggle: false, hide: true, pass_on: false }
            } else {
                PunchReaction { redraw: false, toggle: false, hide: false, pass_on: true }
            }
        },
    }
}

/// A click flips the punch only when the button went down on it and came up
/// on it; no pointer message but that release flips it, and the release always
/// ends the press.
pub proof fn law_a_click_is_a_press_and_release_on_the_punch(s: PunchState, e: PunchEvent)
    ensures
        punch_step_of(s, e).1.toggle && !(e is Key) ==> (e matches PunchEvent::ButtonUp { over }
            && over && s.pressed),
        e is ButtonUp ==> !punch_step_of(s, e).0.pressed,
        e is MouseMove || e is MouseLeave ==> punch_step_of(s, e).0.pressed == s.pressed,
{
}

/// A press on the punch followed by a release on it flips Start with Windows,
/// from any state; a press that comes up off the punch does not; and a
/// release without a press before it never does.
pub proof fn law_a_press_then_release_on_the_punch_flips_it(s: PunchState, up_over: bool)
    ensures
        punch_step_of(
            punch_step_of(s, PunchEvent::ButtonDown { over: true }).0,
            PunchEvent::ButtonUp { over: up_over },
        ).1.toggle == up_over,
        punch_step_of(s, PunchEvent::ButtonDown { over: true }).0.pressed,
        !punch_step_of(s, PunchEvent::ButtonDown { over: true }).1.toggle,
        !s.pressed ==> !punch_step_of(s, PunchEvent::ButtonUp { over: up_over }).1.toggle,
{
}

/// The two shades the punch is drawn in.
#[derive(Debug, Clone, Copy, PartialEq, Eq, Structural)]
pub enum Shade {
    Ink,
    Body,
}

/// How the punch is drawn.
#[derive(Debug, Clone, Copy, PartialEq, Eq, Structural)]
pub struct PunchLook {
    /// The outline's shade.
    pub edge: Shade,
    /// The slug's edge, in logical pixels: 18 at rest, 20 hovered while
    /// armed, 16 held.
    pub slug: u32,
    /// Armed: the slug is punched out, filled solid.
    pub slug_filled: bool,
    /// The slug outline's shade when it is not filled.
    pub slug_edge: Shade,
    /// The keyboard focus ring.
    pub ring: bool,
    /// The grease tick beside an armed switch.
    pub tick: bool,
    /// `ON` or `OFF`.
    pub on_word: bool,
    pub word: Shade,
}

pub open spec fn punch_look_of(on: bool, s: PunchState) -> PunchLook {
    PunchLook {
        edge: if on || s.hover || s.pressed {
            Shade::Ink
        } else {
            Shade::Body
        },
        slug: if s.pressed {
            16
        } else if on && s.hover {
            20
        } else {
            18
        },
        slug_filled: on,
        slug_edge: if on || s.hover || s.pressed {
            Shade::Ink
        } else {
            Shade::Body
        },
        ring: s.focus,
        tick: on,
        on_word: on,
        word: if on {
            Shade::Ink
        } else {
            Shade::Body
        },
    }
}

/// How the punch looks for a state. State is a mark, not a colour: an intact
/// strip is OFF, a punched hole is ON, and an armed switch answers the pointer
/// with its slug.
pub fn punch_look(on: bool, state: PunchState) -> (l: PunchLook)
    ensures
        l == punch_look_of(on, state),
{
    let lit = on || state.hover || state.pressed;
    let slug: u32 = if state.pressed {
        16
    } else if on && state.hover {
        20
    } else {
        18
    };
    PunchLook {
        edge: if lit {
            Shade::Ink
        } else {
            Shade::Body
        },
        slug,
        slug_filled: on,
        slug_edge: if lit {
            Shade::Ink
        } else {
            Shade::Body
        },
        ring: state.focus,
        tick: on,
        on_word: on,
        word: if on {
            Shade::Ink
        } else {
            Shade::Body
        },
    }
}

/// The grease mark appears beside the switch exactly when it is armed, and an
/// armed switch is already at ink, so it answers the pointer with the slug:
/// a pixel more hovered, a pixel less held.
pub proof fn law_armed_answers_with_the_slug(s: PunchState)
    ensures
        punch_look_of(true, s).tick && !punch_look_of(false, s).tick,
        punch_look_of(true, s).edge == Shade::Ink,
        s.hover && !s.pressed ==> punch_look_of(true, s).slug == 20,
        s.pressed ==> punch_look_of(true, s).slug == 16 && punch_look_of(false, s).slug == 16,
{
}

// ------------------------------------------------------------ the frames ---

/// How many frames of the rail are lit: one per window hidden, up to the
/// slots there are.
pub fn lit_frames(hidden: u64) -> (n: i32)
    ensures
        n == if hidden < CELLS {
            hidden as int
        } else {
            CELLS as int
        },
{
    if hidden < CELLS as u64 {
        hidden as i32
    } else {
        CELLS
    }
}

// ------------------------------------------------------------- fitting ---

/// The longest shortening, from `n - 1` down to 1 characters, whose
/// ellipsized width fits `max_w`; 0 when none does.
pub open spec fn longest_fitting(widths: Seq<i32>, max_w: int, n: int) -> int
    decreases n,
{
    if n <= 1 {
        0
    } else if widths[n - 1] <= max_w {
        n - 1
    } else {
        longest_fitting(widths, max_w, n - 1)
    }
}

/// How `fit` shortens a text to a measure: `None` keeps the whole text, `Some(n)`
/// shows its first `n` characters and an ellipsis.
pub open spec fn fit_choice(full_width: int, widths: Seq<i32>, max_w: int) -> Option<int> {
    if full_width <= max_w {
        None
    } else {
        Some(longest_fitting(widths, max_w, widths.len() as int))
    }
}

/// Fits a text to a measure, given its width whole (`full_width`) and the
/// width of `ellipsized(text, n)` for each `n` below its length (`widths[n]`),
/// all measured by GDI in the program: the whole text when it fits, else the
/// longest shortening that fits, else the ellipsis alone.
pub fn fit_len(full_width: i32, widths: &Vec<i32>, max_w: i32) -> (r: Option<usize>)
    ensures
        r matches Some(n) ==> fit_choice(full_width as int, widths@, max_w as int) == Some(
            n as int,
        ),
        r is None <==> fit_choice(full_width as int, widths@, max_w as int) is None,
{
    if full_width <= max_w {
        return None;
    }
    let mut n = widths.len();
    while n > 1
        invariant
            full_width > max_w,
            n <= widths@.len(),
            longest_fitting(widths@, max_w as int, widths@.len() as int) == longest_fitting(
                widths@,
                max_w as int,
                n as int,
            ),
        decreases n,
    {
        n -= 1;
        if widths[n] <= max_w {
            return Some(n);
        }
    }
    Some(0)
}

} // verus!
