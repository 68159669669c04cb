//! Following the desktop's light / dark preference: reading what the desktop
//! answers, and deciding what to draw. When nothing answers, the app stays
//! light.

use vstd::prelude::*;
use crate::paths::{lowercase, to_lowercase};
use crate::text::{
    chars_of, contains, contains_str, ends_with, ends_with_str, find, find_chars, trim,
    trim_bounds, string_of,
};

verus! {

/// A light or a dark interface.
#[derive(Debug, Clone, Copy, PartialEq, Eq, Structural)]
pub enum Theme {
    Light,
    Dark,
}

/// What the user picked in the title bar: `Auto` follows the desktop.
#[derive(Debug, Clone, Copy, PartialEq, Eq, Structural)]
pub enum Mode {
    Auto,
    Light,
    Dark,
}

impl Default for Mode {
    fn default() -> (r: Self)
        ensures
            r == Mode::Auto,
    {
        Mode::Auto
    }
}

pub open spec fn mode_label(m: Mode) -> Seq<char> {
    match m {
        Mode::Auto => "System"@,
        Mode::Light => "Light"@,
        Mode::Dark => "Dark"@,
    }
}

pub open spec fn mode_after(m: Mode) -> Mode {
    match m {
        Mode::Auto => Mode::Light,
        Mode::Light => Mode::Dark,
        Mode::Dark => Mode::Auto,
    }
}

impl Mode {
    /// Short enough for the tool bar of a narrow window.
    pub fn label(self) -> (r: &'static str)
        ensures
            r@ == mode_label(self),
    {
        match self {
            Mode::Auto => "System",
            Mode::Light => "Light",
            Mode::Dark => "Dark",
        }
    }

    /// Cycles system → light → dark → system.
    pub fn next(self) -> (r: Self)
        ensures
            r == mode_after(self),
    {
        match self {
            Mode::Auto => Mode::Light,
            Mode::Light => Mode::Dark,
            Mode::Dark => Mode::Auto,
        }
    }
}

/// Three presses of the theme button bring it back where it started.
pub proof fn lemma_mode_cycle(m: Mode)
    ensures
        mode_after(mode_after(mode_after(m))) == m,
        mode_after(m) != m,
{
}

/// The theme to draw: the user's choice, or for `Auto` what the desktop
/// reported, else what the windowing system reported, else light.
pub open spec fn theme_for(mode: Mode, desktop: Option<Theme>, system: Option<Theme>) -> Theme {
    match mode {
        Mode::Light => Theme::Light,
        Mode::Dark => Theme::Dark,
        Mode::Auto => match desktop {
            Some(t) => t,
            None => match system {
                Some(t) => t,
                None => Theme::Light,
            },
        },
    }
}

pub fn resolve_theme(mode: Mode, desktop: Option<Theme>, system: Option<Theme>) -> (r: Theme)
    ensures
        r == theme_for(mode, desktop, system),
        mode == Mode::Auto && desktop is None && system is None ==> r == Theme::Light,
{
    match mode {
        Mode::Light => Theme::Light,
        Mode::Dark => Theme::Dark,
        Mode::Auto => match desktop {
            Some(t) => t,
            None => match system {
                Some(t) => t,
                None => Theme::Light,
            },
        },
    }
}

/// The portal's answer: the first character after `uint32` (before any
/// second `uint32`), past white space. `1` is dark, `2` light, anything else
/// no answer.
pub open spec fn scheme_answer(out: Seq<char>) -> Option<Theme> {
    let k = find(out, "uint32"@);
    if k < 0 {
        None
    } else {
        let rest = out.skip(k + 6);
        let k2 = find(rest, "uint32"@);
        let seg = if k2 < 0 {
            rest
        } else {
            rest.take(k2)
        };
        let t = trim(seg);
        if t.len() == 0 {
            None
        } else if t[0] == '1' {
            Some(Theme::Dark)
        } else if t[0] == '2' {
            Some(Theme::Light)
        } else {
            None
        }
    }
}

/// `gdbus` prints the variant it got back: `(<uint32 1>,)` from `ReadOne`,
/// `(<<uint32 1>>,)` from the older `Read`. Either way the digit right after
/// the type name is the answer: 0 no preference, 1 dark, 2 light.
pub fn parse_color_scheme(out: &str) -> (r: Option<Theme>)
    ensures
        r == scheme_answer(out@),
{
    proof {
        reveal_strlit("uint32");
    }
    let c = chars_of(out);
    let pat = chars_of("uint32");
    let k = match find_chars(c.as_slice(), pat.as_slice()) {
        Some(k) => k,
        None => return None,
    };
    proof {
        crate::text::lemma_find_from(c@, pat@, 0);
        assert(crate::text::occurs_at(c@, pat@, k as int));
        assert(c@.len() == c.len());
    }
    let start = k + 6;
    let rest_s = string_of(c.as_slice(), start, c.len());
    let rest = chars_of(rest_s.as_str());
    assert(rest@ =~= c@.skip(start as int));
    let end = match find_chars(rest.as_slice(), pat.as_slice()) {
        Some(k2) => {
            proof {
                crate::text::lemma_find_from(rest@, pat@, 0);
            }
            k2
        },
        None => rest.len(),
    };
    let seg_s = string_of(rest.as_slice(), 0, end);
    let seg = chars_of(seg_s.as_str());
    proof {
        if end == rest@.len() {
            assert(seg@ =~= rest@);
        } else {
            assert(seg@ =~= rest@.take(end as int));
        }
    }
    let (lo, hi) = trim_bounds(seg.as_slice());
    if lo == hi {
        return None;
    }
    assert(seg@.subrange(lo as int, hi as int)[0] == seg@[lo as int]);
    let first = seg[lo];
    if first == '1' {
        Some(Theme::Dark)
    } else if first == '2' {
        Some(Theme::Light)
    } else {
        None
    }
}

/// A GTK theme name that gives away a dark variant.
pub open spec fn dark_name(name: Seq<char>) -> bool {
    contains(lowercase(name), "dark"@) || ends_with(lowercase(name), ":dark"@)
}

pub fn is_dark_name(name: &str) -> (r: bool)
    ensures
        r == dark_name(name@),
{
    let lower = to_lowercase(name);
    let c = chars_of(lower.as_str());
    contains_str(c.as_slice(), "dark") || ends_with_str(c.as_slice(), ":dark")
}

/// What GNOME's `color-scheme` setting says outright; `None` when it says
/// `default` and the GTK theme name has to be read instead.
pub open spec fn gnome_scheme_answer(scheme: Seq<char>) -> Option<Theme> {
    if contains(scheme, "prefer-dark"@) {
        Some(Theme::Dark)
    } else if contains(scheme, "prefer-light"@) {
        Some(Theme::Light)
    } else {
        None
    }
}

pub fn theme_from_gnome_scheme(scheme: &str) -> (r: Option<Theme>)
    ensures
        r == gnome_scheme_answer(scheme@),
{
    let c = chars_of(scheme);
    if contains_str(c.as_slice(), "prefer-dark") {
        Some(Theme::Dark)
    } else if contains_str(c.as_slice(), "prefer-light") {
        Some(Theme::Light)
    } else {
        None
    }
}

/// The GNOME GTK theme name read as a preference: dark if it says so,
/// light otherwise.
pub fn theme_from_gtk_name(name: &str) -> (r: Theme)
    ensures
        r == (if dark_name(name@) {
            Theme::Dark
        } else {
            Theme::Light
        }),
{
    if is_dark_name(name) {
        Theme::Dark
    } else {
        Theme::Light
    }
}

/// `GTK_THEME` only ever answers dark; a light name says nothing.
pub fn theme_from_gtk_env(name: &str) -> (r: Option<Theme>)
    ensures
        r == (if dark_name(name@) {
            Some(Theme::Dark)
        } else {
            None
        }),
{
    if is_dark_name(name) {
        Some(Theme::Dark)
    } else {
        None
    }
}

/// The places asked, in order, for the desktop's preference: the XDG desktop
/// portal, GNOME's `color-scheme` setting, GNOME's GTK theme name (read only
/// when `color-scheme` says `default`), and the `GTK_THEME` variable.
#[derive(Debug, Clone, Copy, PartialEq, Eq, Structural)]
pub enum Lookup {
    Portal,
    GnomeScheme,
    GnomeThemeName,
    GtkEnv,
}

/// After a lookup: ask the next place, or stop with the answer (`None`:
/// nobody could tell, which the caller draws as light).
#[derive(Debug, Clone, Copy, PartialEq, Eq, Structural)]
pub enum Detection {
    Ask(Lookup),
    Answer(Option<Theme>),
}

/// What a lookup's reply leads to. A failed lookup (`None`) moves on, except
/// that a failed GTK theme name read skips straight to `GTK_THEME`, as GNOME's
/// whole answer is then missing.
pub open spec fn detection_after(asked: Lookup, reply: Option<Seq<char>>) -> Detection {
    match asked {
        Lookup::Portal => match reply {
            Some(out) => match scheme_answer(out) {
                Some(t) => Detection::Answer(Some(t)),
                None => Detection::Ask(Lookup::GnomeScheme),
            },
            None => Detection::Ask(Lookup::GnomeScheme),
        },
        Lookup::GnomeScheme => match reply {
            Some(scheme) => match gnome_scheme_answer(scheme) {
                Some(t) => Detection::Answer(Some(t)),
                None => Detection::Ask(Lookup::GnomeThemeName),
            },
            None => Detection::Ask(Lookup::GtkEnv),
        },
        Lookup::GnomeThemeName => match reply {
            Some(name) => Detection::Answer(
                Some(
                    if dark_name(name) {
                        Theme::Dark
                    } else {
                        Theme::Light
                    },
                ),
            ),
            None => Detection::Ask(Lookup::GtkEnv),
        },
        Lookup::GtkEnv => match reply {
            Some(name) => Detection::Answer(
                if dark_name(name) {
                    Some(Theme::Dark)
                } else {
                    None
                },
            ),
            None => Detection::Answer(None),
        },
    }
}

/// Asks the desktop what it prefers, one place after the other: takes what
/// the lookup `asked` replied and says where to look next or what the answer
/// is.
pub fn detect_step(asked: Lookup, reply: Option<String>) -> (r: Detection)
    ensures
        r == detection_after(
            asked,
            match reply {
                Some(t) => Some(t@),
                None => None,
            },
        ),
{
    match asked {
        Lookup::Portal => match reply {
            Some(out) => match parse_color_scheme(out.as_str()) {
                Some(t) => Detection::Answer(Some(t)),
                None => Detection::Ask(Lookup::GnomeScheme),
            },
            None => Detection::Ask(Lookup::GnomeScheme),
        },
        Lookup::GnomeScheme => match reply {
            Some(scheme) => match theme_from_gnome_scheme(scheme.as_str()) {
                Some(t) => Detection::Answer(Some(t)),
                None => Detection::Ask(Lookup::GnomeThemeName),
            },
            None => Detection::Ask(Lookup::GtkEnv),
        },
        Lookup::GnomeThemeName => match reply {
            Some(name) => Detection::Answer(Some(theme_from_gtk_name(name.as_str()))),
            None => Detection::Ask(Lookup::GtkEnv),
        },
        Lookup::GtkEnv => match reply {
            Some(name) => Detection::Answer(theme_from_gtk_env(name.as_str())),
            None => Detection::Answer(None),
        },
    }
}

/// When nothing answers, the app stays light: a detection that every place
/// fails ends with no answer, and no answer under `Auto` draws light.
pub proof fn lemma_silent_desktop_stays_light(system: Option<Theme>)
    ensures
        detection_after(Lookup::Portal, None) == Detection::Ask(Lookup::GnomeScheme),
        detection_after(Lookup::GnomeScheme, None) == Detection::Ask(Lookup::GtkEnv),
        detection_after(Lookup::GtkEnv, None) == Detection::Answer(None),
        theme_for(Mode::Auto, None, None) == Theme::Light,
        system is None ==> theme_for(Mode::Auto, None, system) == Theme::Light,
{
}

/// A helper's output as an answer: trimmed, and `None` when nothing is left.
pub fn command_answer(stdout: &str) -> (r: Option<String>)
    ensures
        match r {
            Some(t) => t@ == trim(stdout@) && t@.len() > 0,
            None => trim(stdout@).len() == 0,
        },
{
    let t = crate::text::trim_str(stdout);
    if t.unicode_len() == 0 {
        None
    } else {
        Some(t)
    }
}

/// The watch process to take down on quitting: the one recorded, where one
/// is (0 records none).
pub fn monitor_to_stop(recorded: u32) -> (r: Option<u32>)
    ensures
        r == (if recorded == 0 {
            None
        } else {
            Some(recorded)
        }),
{
    if recorded == 0 {
        None
    } else {
        Some(recorded)
    }
}

/// How the desktop's answer is kept in a byte: 0 none, 1 light, 2 dark.
pub open spec fn theme_code(t: Option<Theme>) -> u8 {
    match t {
        Some(Theme::Light) => 1,
        Some(Theme::Dark) => 2,
        None => 0,
    }
}

pub fn encode_theme(t: Option<Theme>) -> (r: u8)
    ensures
        r == theme_code(t),
{
    match t {
        Some(Theme::Light) => 1,
        Some(Theme::Dark) => 2,
        None => 0,
    }
}

pub fn decode_theme(code: u8) -> (r: Option<Theme>)
    ensures
        r == (if code == 1 {
            Some(Theme::Light)
        } else if code == 2 {
            Some(Theme::Dark)
        } else {
            None
        }),
        theme_code(r) == code || (code > 2 && r is None),
{
    if code == 1 {
        Some(Theme::Light)
    } else if code == 2 {
        Some(Theme::Dark)
    } else {
        None
    }
}

/// Storing an answer and reading it back gives the same answer.
pub proof fn lemma_theme_code_round_trip(t: Option<Theme>)
    ensures
        (if theme_code(t) == 1 {
            Some(Theme::Light)
        } else if theme_code(t) == 2 {
            Some(Theme::Dark)
        } else {
            None::<Theme>
        }) == t,
{
}

} // verus!
