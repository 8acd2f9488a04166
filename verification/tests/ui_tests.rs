use waveform::pointer::{cursor_shape, pointer_step, CursorShape, DragState, PointerAction, PointerEvent};
use waveform::terminal::{key_from_byte, key_from_escape, parse_terminal_size, trim_white, Key, KeyStart};
use waveform::transport::{
    after_try_seek, rebuild_playback, seek_step, sync_action, toggle_action, AfterSeek, Playback,
    SeekStep, SyncAction,
};
use waveform::ui::{
    fallback_icon_glyph, format_duration, play_label, preferred_mono_font_family,
    preferred_ui_font_family, remix_icon_glyph, shortcut, truncate_filename, ButtonIcon, Command,
    KeyInput,
};

#[test]
fn duration_readout() {
    assert_eq!(format_duration(0), "00:00:00.000");
    assert_eq!(format_duration(3_723_004), "01:02:03.004");
    assert_eq!(format_duration(360_000_000), "100:00:00.000");
}

#[test]
fn file_names_are_shortened() {
    assert_eq!(truncate_filename("short.wav", 40), "short.wav");
    assert_eq!(truncate_filename("abcdef", 4), "abc\u{2026}");
    assert_eq!(truncate_filename("\u{e9}t\u{e9}.wav", 3), "\u{e9}t\u{2026}");
    assert_eq!(truncate_filename("abc", 0), "\u{2026}");
}

#[test]
fn keyboard_shortcuts() {
    assert_eq!(shortcut(&KeyInput::Space, false), Some(Command::TogglePlayback));
    assert_eq!(shortcut(&KeyInput::Home, true), Some(Command::Restart));
    assert_eq!(shortcut(&KeyInput::ArrowLeft, true), Some(Command::PanBackward));
    assert_eq!(shortcut(&KeyInput::ArrowLeft, false), Some(Command::SkipBackward));
    assert_eq!(shortcut(&KeyInput::ArrowRight, false), Some(Command::SkipForward));
    assert_eq!(shortcut(&KeyInput::ArrowUp, false), Some(Command::ZoomIn));
    assert_eq!(shortcut(&KeyInput::ArrowDown, false), Some(Command::ZoomOut));
    assert_eq!(shortcut(&KeyInput::Character("+".to_string()), false), Some(Command::ZoomIn));
    assert_eq!(shortcut(&KeyInput::Character("_".to_string()), false), Some(Command::ZoomOut));
    assert_eq!(shortcut(&KeyInput::Character("]".to_string()), false), Some(Command::PanForward));
    assert_eq!(shortcut(&KeyInput::Character("0".to_string()), false), Some(Command::FitViewport));
    assert_eq!(shortcut(&KeyInput::Character("F".to_string()), false), Some(Command::ToggleFollow));
    assert_eq!(shortcut(&KeyInput::Character("l".to_string()), false), Some(Command::ToggleLoop));
    assert_eq!(shortcut(&KeyInput::Character("J".to_string()), false), Some(Command::SkipBackward));
    assert_eq!(shortcut(&KeyInput::Character("k".to_string()), false), Some(Command::SkipForward));
    assert_eq!(shortcut(&KeyInput::Character("ff".to_string()), false), None);
    assert_eq!(shortcut(&KeyInput::Other, false), None);
}

#[test]
fn glyphs_and_fonts() {
    assert_eq!(remix_icon_glyph(ButtonIcon::Play), '\u{f00a}');
    assert_eq!(remix_icon_glyph(ButtonIcon::Fit), '\u{ed4c}');
    assert_eq!(fallback_icon_glyph(ButtonIcon::SkipBack), "\u{2039}\u{2039}");
    assert_eq!(fallback_icon_glyph(ButtonIcon::ZoomIn), "+");
    assert_eq!(preferred_mono_font_family(true), "JetBrains Mono");
    assert_eq!(preferred_mono_font_family(false), "Fira Code");
    assert_eq!(preferred_ui_font_family(true), "IBM Plex Sans Condensed");
    assert_eq!(preferred_ui_font_family(false), "Barlow Condensed");
    assert_eq!(play_label(Some(false)), "PAUSE");
    assert_eq!(play_label(Some(true)), "PLAY");
    assert_eq!(play_label(None), "PLAY");
}

#[test]
fn key_decoding() {
    assert_eq!(key_from_byte(b'q'), KeyStart::Done(Key::Char('q')));
    assert_eq!(key_from_byte(0x1b), KeyStart::Escape);
    assert_eq!(key_from_escape(b'[', b'D'), Key::Left);
    assert_eq!(key_from_escape(b'[', b'C'), Key::Right);
    assert_eq!(key_from_escape(b'[', b'A'), Key::Char('\u{1b}'));
}

#[test]
fn terminal_size_text() {
    assert_eq!(parse_terminal_size("24 80\n"), Ok((80, 24)));
    assert_eq!(parse_terminal_size("  5\t+10 "), Ok((32, 16)));
    assert_eq!(parse_terminal_size(""), Err("terminal size did not include rows".to_string()));
    assert_eq!(parse_terminal_size("x 80"), Err("invalid terminal row count".to_string()));
    assert_eq!(parse_terminal_size("24"), Err("terminal size did not include columns".to_string()));
    assert_eq!(parse_terminal_size("24 -80"), Err("invalid terminal column count".to_string()));
    assert_eq!(
        parse_terminal_size("24 99999999999999999999999"),
        Err("invalid terminal column count".to_string())
    );
    assert_eq!(trim_white("  raw -echo\n"), "raw -echo");
    assert_eq!(trim_white(" \t\n"), "");
}

#[test]
fn transport_decisions() {
    assert_eq!(toggle_action(true), Playback::Play);
    assert_eq!(toggle_action(false), Playback::Pause);
    assert_eq!(rebuild_playback(false), Playback::Pause);
    assert_eq!(seek_step(false, true), SeekStep::Rebuild { autoplay: true });
    assert_eq!(seek_step(true, false), SeekStep::TrySeek { autoplay: false });
    assert_eq!(after_try_seek(false, true), AfterSeek::Rebuild { autoplay: true });
    assert_eq!(after_try_seek(true, true), AfterSeek::Play);
    assert_eq!(after_try_seek(true, false), AfterSeek::Stay);
    assert_eq!(sync_action(false, true, true), SyncAction::Restart);
    assert_eq!(sync_action(false, true, false), SyncAction::ParkAtEnd);
    assert_eq!(sync_action(true, true, true), SyncAction::Nothing);
    assert_eq!(sync_action(false, false, true), SyncAction::Nothing);
}

#[test]
fn pointer_drags() {
    let idle = DragState { seeking: false, panning: false };
    let pressed = pointer_step(idle, PointerEvent::LeftPressed, true);
    assert_eq!(pressed.action, PointerAction::Seek);
    assert!(pressed.captured && pressed.state.seeking);
    let moved = pointer_step(pressed.state, PointerEvent::Moved, true);
    assert_eq!(moved.action, PointerAction::Seek);
    let released = pointer_step(moved.state, PointerEvent::LeftReleased, false);
    assert_eq!(released.state, idle);
    assert!(released.captured);
    let outside = pointer_step(idle, PointerEvent::RightPressed, false);
    assert_eq!(outside.action, PointerAction::Nothing);
    assert!(!outside.captured);
    let pan = pointer_step(idle, PointerEvent::RightPressed, true);
    assert_eq!(pan.action, PointerAction::StartPan);
    assert_eq!(pointer_step(pan.state, PointerEvent::Moved, true).action, PointerAction::Pan);
    let wheel = PointerEvent::Wheel { vertical: true, horizontal: true };
    assert_eq!(pointer_step(idle, wheel, true).action, PointerAction::Zoom);
    let sideways = PointerEvent::Wheel { vertical: false, horizontal: true };
    assert_eq!(pointer_step(idle, sideways, true).action, PointerAction::WheelPan);
    assert_eq!(pointer_step(idle, sideways, false).action, PointerAction::Nothing);
    assert_eq!(cursor_shape(true, false), CursorShape::Grabbing);
    assert_eq!(cursor_shape(false, true), CursorShape::Grab);
    assert_eq!(cursor_shape(false, false), CursorShape::Default);
}
