//! Presentation decisions of the desktop interface that do not depend on
//! the toolkit: keyboard shortcuts, button glyphs, font choices, labels and
//! time readouts.
use vstd::prelude::*;
use crate::text::{padded_decimal, push_padded_decimal, str_equals};

verus! {

// ---------------------------------------------------------------------------
// Keyboard shortcuts
// ---------------------------------------------------------------------------

/// A key as the shortcut table distinguishes it.
pub enum KeyInput {
    Space,
    Home,
    ArrowLeft,
    ArrowRight,
    ArrowUp,
    ArrowDown,
    Character(String),
    Other,
}

/// What a shortcut asks the player or the timeline to do.
#[derive(Clone, Copy, Debug, PartialEq, Eq)]
pub enum Command {
    TogglePlayback,
    Restart,
    PanBackward,
    PanForward,
    SkipBackward,
    SkipForward,
    ZoomIn,
    ZoomOut,
    FitViewport,
    ToggleFollow,
    ToggleLoop,
}

/// The command bound to a typed character, if any.
pub open spec fn character_command(c: Seq<char>) -> Option<Command> {
    if c == "="@ || c == "+"@ {
        Some(Command::ZoomIn)
    } else if c == "-"@ || c == "_"@ {
        Some(Command::ZoomOut)
    } else if c == "["@ {
        Some(Command::PanBackward)
    } else if c == "]"@ {
        Some(Command::PanForward)
    } else if c == "0"@ {
        Some(Command::FitViewport)
    } else if c == "f"@ || c == "F"@ {
        Some(Command::ToggleFollow)
    } else if c == "l"@ || c == "L"@ {
        Some(Command::ToggleLoop)
    } else if c == "j"@ || c == "J"@ {
        Some(Command::SkipBackward)
    } else if c == "k"@ || c == "K"@ {
        Some(Command::SkipForward)
    } else {
        None
    }
}

/// The shortcut table: space plays or pauses, Home restarts, the arrows
/// skip (or pan with Shift) and zoom, and characters as listed in
/// `character_command`.
pub open spec fn spec_shortcut(key: KeyInput, shift: bool) -> Option<Command> {
    match key {
        KeyInput::Space => Some(Command::TogglePlayback),
        KeyInput::Home => Some(Command::Restart),
        KeyInput::ArrowLeft => if shift {
            Some(Command::PanBackward)
        } else {
            Some(Command::SkipBackward)
        },
        KeyInput::ArrowRight => if shift {
            Some(Command::PanForward)
        } else {
            Some(Command::SkipForward)
        },
        KeyInput::ArrowUp => Some(Command::ZoomIn),
        KeyInput::ArrowDown => Some(Command::ZoomOut),
        KeyInput::Character(c) => character_command(c@),
        KeyInput::Other => None,
    }
}

fn character_shortcut(c: &str) -> (r: Option<Command>)
    ensures
        r == character_command(c@),
{
    if str_equals(c, "=") || str_equals(c, "+") {
        Some(Command::ZoomIn)
    } else if str_equals(c, "-") || str_equals(c, "_") {
        Some(Command::ZoomOut)
    } else if str_equals(c, "[") {
        Some(Command::PanBackward)
    } else if str_equals(c, "]") {
        Some(Command::PanForward)
    } else if str_equals(c, "0") {
        Some(Command::FitViewport)
    } else if str_equals(c, "f") || str_equals(c, "F") {
        Some(Command::ToggleFollow)
    } else if str_equals(c, "l") || str_equals(c, "L") {
        Some(Command::ToggleLoop)
    } else if str_equals(c, "j") || str_equals(c, "J") {
        Some(Command::SkipBackward)
    } else if str_equals(c, "k") || str_equals(c, "K") {
        Some(Command::SkipForward)
    } else {
        None
    }
}

/// The command bound to a key press, if any.
pub fn shortcut(key: &KeyInput, shift: bool) -> (r: Option<Command>)
    ensures
        r == spec_shortcut(*key, shift),
{
    match key {
        KeyInput::Space => Some(Command::TogglePlayback),
        KeyInput::Home => Some(Command::Restart),
        KeyInput::ArrowLeft => if shift {
            Some(Command::PanBackward)
        } else {
            Some(Command::SkipBackward)
        },
        KeyInput::ArrowRight => if shift {
            Some(Command::PanForward)
        } else {
            Some(Command::SkipForward)
        },
        KeyInput::ArrowUp => Some(Command::ZoomIn),
        KeyInput::ArrowDown => Some(Command::ZoomOut),
        KeyInput::Character(c) => character_shortcut(c.as_str()),
        KeyInput::Other => None,
    }
}

// ---------------------------------------------------------------------------
// Buttons and fonts
// ---------------------------------------------------------------------------

/// The icon of a sidebar button.
#[derive(Clone, Copy, Debug, PartialEq, Eq)]
pub enum ButtonIcon {
    Play,
    Pause,
    Restart,
    SkipBack,
    SkipForward,
    Loop,
    Follow,
    PanLeft,
    PanRight,
    ZoomOut,
    ZoomIn,
    Fit,
}

/// The glyph of each icon in the Remix Icon font.
pub open spec fn remix_glyph(icon: ButtonIcon) -> char {
    match icon {
        ButtonIcon::Play => '\u{f00a}',
        ButtonIcon::Pause => '\u{efd7}',
        ButtonIcon::Restart => '\u{f080}',
        ButtonIcon::SkipBack => '\u{f363}',
        ButtonIcon::SkipForward => '\u{f365}',
        ButtonIcon::Loop => '\u{f33d}',
        ButtonIcon::Follow => '\u{f0bd}',
        ButtonIcon::PanLeft => '\u{ea60}',
        ButtonIcon::PanRight => '\u{ea6c}',
        ButtonIcon::ZoomOut => '\u{f2dd}',
        ButtonIcon::ZoomIn => '\u{f2db}',
        ButtonIcon::Fit => '\u{ed4c}',
    }
}

/// The glyph of `icon` in the icon font.
pub fn remix_icon_glyph(icon: ButtonIcon) -> (r: char)
    ensures
        r == remix_glyph(icon),
{
    match icon {
        ButtonIcon::Play => '\u{f00a}',
        ButtonIcon::Pause => '\u{efd7}',
        ButtonIcon::Restart => '\u{f080}',
        ButtonIcon::SkipBack => '\u{f363}',
        ButtonIcon::SkipForward => '\u{f365}',
        ButtonIcon::Loop => '\u{f33d}',
        ButtonIcon::Follow => '\u{f0bd}',
        ButtonIcon::PanLeft => '\u{ea60}',
        ButtonIcon::PanRight => '\u{ea6c}',
        ButtonIcon::ZoomOut => '\u{f2dd}',
        ButtonIcon::ZoomIn => '\u{f2db}',
        ButtonIcon::Fit => '\u{ed4c}',
    }
}

/// The text shown for each icon when the icon font is not installed.
pub open spec fn fallback_glyph(icon: ButtonIcon) -> Seq<char> {
    match icon {
        ButtonIcon::Play => "\u{25b6}"@,
        ButtonIcon::Pause => "\u{2016}"@,
        ButtonIcon::Restart => "\u{21ba}"@,
        ButtonIcon::SkipBack => "\u{2039}\u{2039}"@,
        ButtonIcon::SkipForward => "\u{203a}\u{203a}"@,
        ButtonIcon::Loop => "\u{27f2}"@,
        ButtonIcon::Follow => "\u{25ce}"@,
        ButtonIcon::PanLeft => "\u{2190}"@,
        ButtonIcon::PanRight => "\u{2192}"@,
        ButtonIcon::ZoomOut => "\u{2212}"@,
        ButtonIcon::ZoomIn => "+"@,
        ButtonIcon::Fit => "\u{25a1}"@,
    }
}

/// The text standing in for `icon` without the icon font.
pub fn fallback_icon_glyph(icon: ButtonIcon) -> (r: &'static str)
    ensures
        r@ == fallback_glyph(icon),
{
    match icon {
        ButtonIcon::Play => "\u{25b6}",
        ButtonIcon::Pause => "\u{2016}",
        ButtonIcon::Restart => "\u{21ba}",
        ButtonIcon::SkipBack => "\u{2039}\u{2039}",
        ButtonIcon::SkipForward => "\u{203a}\u{203a}",
        ButtonIcon::Loop => "\u{27f2}",
        ButtonIcon::Follow => "\u{25ce}",
        ButtonIcon::PanLeft => "\u{2190}",
        ButtonIcon::PanRight => "\u{2192}",
        ButtonIcon::ZoomOut => "\u{2212}",
        ButtonIcon::ZoomIn => "+",
        ButtonIcon::Fit => "\u{25a1}",
    }
}

/// The monospace family: JetBrains Mono when one of its font files exists,
/// otherwise Fira Code.
pub fn preferred_mono_font_family(jetbrains_mono_found: bool) -> (r: &'static str)
    ensures
        r@ == if jetbrains_mono_found {
            "JetBrains Mono"@
        } else {
            "Fira Code"@
        },
{
    if jetbrains_mono_found {
        "JetBrains Mono"
    } else {
        "Fira Code"
    }
}

/// The interface family: IBM Plex Sans Condensed when one of its font files
/// exists, otherwise Barlow Condensed.
pub fn preferred_ui_font_family(plex_found: bool) -> (r: &'static str)
    ensures
        r@ == if plex_found {
            "IBM Plex Sans Condensed"@
        } else {
            "Barlow Condensed"@
        },
{
    if plex_found {
        "IBM Plex Sans Condensed"
    } else {
        "Barlow Condensed"
    }
}

/// The label of the play button: `PAUSE` while a player is playing,
/// `PLAY` when it is paused or there is no player (`None`).
pub fn play_label(player_paused: Option<bool>) -> (r: &'static str)
    ensures
        r@ == if player_paused == Some(false) {
            "PAUSE"@
        } else {
            "PLAY"@
        },
{
    match player_paused {
        Some(false) => "PAUSE",
        _ => "PLAY",
    }
}

// ---------------------------------------------------------------------------
// Labels
// ---------------------------------------------------------------------------

/// `input` when it has at most `max_chars` characters, otherwise its first
/// `max_chars - 1` characters followed by an ellipsis.
pub open spec fn truncated_text(input: Seq<char>, max_chars: int) -> Seq<char> {
    if input.len() <= max_chars {
        input
    } else {
        input.subrange(
            0,
            if max_chars >= 1 {
                max_chars - 1
            } else {
                0
            },
        ) + "\u{2026}"@
    }
}

/// Shortens a file name to fit `max_chars` characters.
pub fn truncate_filename(input: &str, max_chars: usize) -> (r: String)
    ensures
        r@ == truncated_text(input@, max_chars as int),
{
    if input.unicode_len() <= max_chars {
        return input.to_owned();
    }
    let visible = if max_chars >= 1 {
        max_chars - 1
    } else {
        0
    };
    let mut s = input.substring_char(0, visible).to_owned();
    s.append("\u{2026}");
    s
}

/// `HH:MM:SS.mmm` for a duration in whole milliseconds; hours are not
/// wrapped and use at least two digits.
pub open spec fn duration_text(total_millis: nat) -> Seq<char> {
    padded_decimal(total_millis / 3600000, 2) + ":"@ + padded_decimal((total_millis / 60000) % 60, 2)
        + ":"@ + padded_decimal((total_millis / 1000) % 60, 2) + "."@ + padded_decimal(
        total_millis % 1000,
        3,
    )
}

/// Formats a duration given in whole milliseconds.
pub fn format_duration(total_millis: u128) -> (r: String)
    ensures
        r@ == duration_text(total_millis as nat),
{
    let mut s = String::new();
    push_padded_decimal(&mut s, total_millis / 3_600_000, 2);
    s.append(":");
    push_padded_decimal(&mut s, (total_millis / 60_000) % 60, 2);
    s.append(":");
    push_padded_decimal(&mut s, (total_millis / 1_000) % 60, 2);
    s.append(".");
    push_padded_decimal(&mut s, total_millis % 1_000, 3);
    s
}

/// The character keys: `+` and `=` zoom in, `-` and `_` zoom out (each
/// key and its shifted twin give the same command), `[` and `]` pan back
/// and forward, `0` fits the whole file, `f`/`F` toggles following, `l`/`L`
/// toggles looping, `j`/`J` and `k`/`K` skip back and forward. Only single
/// characters are bound, and Shift does not change what a character does.
pub proof fn lemma_character_keys(c: String, shift: bool)
    ensures
        (c@ == seq!['+'] || c@ == seq!['=']) ==> spec_shortcut(KeyInput::Character(c), shift)
            == Some(Command::ZoomIn),
        (c@ == seq!['-'] || c@ == seq!['_']) ==> spec_shortcut(KeyInput::Character(c), shift)
            == Some(Command::ZoomOut),
        c@ == seq!['['] ==> spec_shortcut(KeyInput::Character(c), shift) == Some(
            Command::PanBackward,
        ),
        c@ == seq![']'] ==> spec_shortcut(KeyInput::Character(c), shift) == Some(
            Command::PanForward,
        ),
        c@ == seq!['0'] ==> spec_shortcut(KeyInput::Character(c), shift) == Some(
            Command::FitViewport,
        ),
        (c@ == seq!['f'] || c@ == seq!['F']) ==> spec_shortcut(KeyInput::Character(c), shift)
            == Some(Command::ToggleFollow),
        (c@ == seq!['l'] || c@ == seq!['L']) ==> spec_shortcut(KeyInput::Character(c), shift)
            == Some(Command::ToggleLoop),
        (c@ == seq!['j'] || c@ == seq!['J']) ==> spec_shortcut(KeyInput::Character(c), shift)
            == Some(Command::SkipBackward),
        (c@ == seq!['k'] || c@ == seq!['K']) ==> spec_shortcut(KeyInput::Character(c), shift)
            == Some(Command::SkipForward),
        spec_shortcut(KeyInput::Character(c), shift) is Some ==> c@.len() == 1,
        spec_shortcut(KeyInput::Character(c), shift) == spec_shortcut(KeyInput::Character(c), !shift),
{
    reveal_strlit("=");
    assert("="@ =~= seq!['=']);
    if c@.len() == 1 && c@[0] == '=' {
        assert(c@ =~= "="@);
    }
    assert(c@ == "="@ ==> c@.len() == 1 && c@[0] == '=');
    reveal_strlit("+");
    assert("+"@ =~= seq!['+']);
    if c@.len() == 1 && c@[0] == '+' {
        assert(c@ =~= "+"@);
    }
    assert(c@ == "+"@ ==> c@.len() == 1 && c@[0] == '+');
    reveal_strlit("-");
    assert("-"@ =~= seq!['-']);
    if c@.len() == 1 && c@[0] == '-' {
        assert(c@ =~= "-"@);
    }
    assert(c@ == "-"@ ==> c@.len() == 1 && c@[0] == '-');
    reveal_strlit("_");
    assert("_"@ =~= seq!['_']);
    if c@.len() == 1 && c@[0] == '_' {
        assert(c@ =~= "_"@);
    }
    assert(c@ == "_"@ ==> c@.len() == 1 && c@[0] == '_');
    reveal_strlit("[");
    assert("["@ =~= seq!['[']);
    if c@.len() == 1 && c@[0] == '[' {
        assert(c@ =~= "["@);
    }
    assert(c@ == "["@ ==> c@.len() == 1 && c@[0] == '[');
    reveal_strlit("]");
    assert("]"@ =~= seq![']']);
    if c@.len() == 1 && c@[0] == ']' {
        assert(c@ =~= "]"@);
    }
    assert(c@ == "]"@ ==> c@.len() == 1 && c@[0] == ']');
    reveal_strlit("0");
    assert("0"@ =~= seq!['0']);
    if c@.len() == 1 && c@[0] == '0' {
        assert(c@ =~= "0"@);
    }
    assert(c@ == "0"@ ==> c@.len() == 1 && c@[0] == '0');
    reveal_strlit("f");
    assert("f"@ =~= seq!['f']);
    if c@.len() == 1 && c@[0] == 'f' {
        assert(c@ =~= "f"@);
    }
    assert(c@ == "f"@ ==> c@.len() == 1 && c@[0] == 'f');
    reveal_strlit("F");
    assert("F"@ =~= seq!['F']);
    if c@.len() == 1 && c@[0] == 'F' {
        assert(c@ =~= "F"@);
    }
    assert(c@ == "F"@ ==> c@.len() == 1 && c@[0] == 'F');
    reveal_strlit("l");
    assert("l"@ =~= seq!['l']);
    if c@.len() == 1 && c@[0] == 'l' {
        assert(c@ =~= "l"@);
    }
    assert(c@ == "l"@ ==> c@.len() == 1 && c@[0] == 'l');
    reveal_strlit("L");
    assert("L"@ =~= seq!['L']);
    if c@.len() == 1 && c@[0] == 'L' {
        assert(c@ =~= "L"@);
    }
    assert(c@ == "L"@ ==> c@.len() == 1 && c@[0] == 'L');
    reveal_strlit("j");
    assert("j"@ =~= seq!['j']);
    if c@.len() == 1 && c@[0] == 'j' {
        assert(c@ =~= "j"@);
    }
    assert(c@ == "j"@ ==> c@.len() == 1 && c@[0] == 'j');
    reveal_strlit("J");
    assert("J"@ =~= seq!['J']);
    if c@.len() == 1 && c@[0] == 'J' {
        assert(c@ =~= "J"@);
    }
    assert(c@ == "J"@ ==> c@.len() == 1 && c@[0] == 'J');
    reveal_strlit("k");
    assert("k"@ =~= seq!['k']);
    if c@.len() == 1 && c@[0] == 'k' {
        assert(c@ =~= "k"@);
    }
    assert(c@ == "k"@ ==> c@.len() == 1 && c@[0] == 'k');
    reveal_strlit("K");
    assert("K"@ =~= seq!['K']);
    if c@.len() == 1 && c@[0] == 'K' {
        assert(c@ =~= "K"@);
    }
    assert(c@ == "K"@ ==> c@.len() == 1 && c@[0] == 'K');
}

/// Zooming in and zooming out have disjoint keys: only Up, `+` and `=`
/// zoom in, only Down, `-` and `_` zoom out; Space plays or pauses, Home
/// restarts, and Left/Right skip, or pan with Shift.
pub proof fn lemma_zoom_keys(key: KeyInput, shift: bool)
    ensures
        spec_shortcut(key, shift) == Some(Command::ZoomIn) ==> (key is ArrowUp || (
        key matches KeyInput::Character(c) && (c@ == seq!['+'] || c@ == seq!['=']))),
        spec_shortcut(key, shift) == Some(Command::ZoomOut) ==> (key is ArrowDown || (
        key matches KeyInput::Character(c) && (c@ == seq!['-'] || c@ == seq!['_']))),
        key is ArrowUp ==> spec_shortcut(key, shift) == Some(Command::ZoomIn),
        key is ArrowDown ==> spec_shortcut(key, shift) == Some(Command::ZoomOut),
        key is Space ==> spec_shortcut(key, shift) == Some(Command::TogglePlayback),
        key is Home ==> spec_shortcut(key, shift) == Some(Command::Restart),
        key is ArrowLeft ==> spec_shortcut(key, shift) == Some(
            if shift { Command::PanBackward } else { Command::SkipBackward },
        ),
        key is ArrowRight ==> spec_shortcut(key, shift) == Some(
            if shift { Command::PanForward } else { Command::SkipForward },
        ),
        key is Other ==> spec_shortcut(key, shift) is None,
{
    reveal_strlit("=");
    assert("="@ =~= seq!['=']);
    reveal_strlit("+");
    assert("+"@ =~= seq!['+']);
    reveal_strlit("-");
    assert("-"@ =~= seq!['-']);
    reveal_strlit("_");
    assert("_"@ =~= seq!['_']);
    reveal_strlit("[");
    assert("["@ =~= seq!['[']);
    reveal_strlit("]");
    assert("]"@ =~= seq![']']);
    reveal_strlit("0");
    assert("0"@ =~= seq!['0']);
    reveal_strlit("f");
    assert("f"@ =~= seq!['f']);
    reveal_strlit("F");
    assert("F"@ =~= seq!['F']);
    reveal_strlit("l");
    assert("l"@ =~= seq!['l']);
    reveal_strlit("L");
    assert("L"@ =~= seq!['L']);
    reveal_strlit("j");
    assert("j"@ =~= seq!['j']);
    reveal_strlit("J");
    assert("J"@ =~= seq!['J']);
    reveal_strlit("k");
    assert("k"@ =~= seq!['k']);
    reveal_strlit("K");
    assert("K"@ =~= seq!['K']);
}

} // verus!
