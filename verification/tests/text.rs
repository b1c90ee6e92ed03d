use agentdrop::console::{virtual_terminal_mode, VIRTUAL_TERMINAL_INPUT};
use agentdrop::text::{decimal, ends_with, starts_with, trim, trim_end, white_space};
use windows_sys::Win32::System::Console::ENABLE_VIRTUAL_TERMINAL_INPUT;

#[test]
fn white_space_is_what_unicode_says() {
    for c in '\0'..=char::MAX {
        assert_eq!(white_space(c), c.is_whitespace(), "{:#x}", c as u32);
    }
}

#[test]
fn texts_are_trimmed() {
    for text in ["", " ", "a", " a", "a ", "\t a b\r\n", "\u{2003}\u{e9}\u{85}", "\u{200b}a"] {
        assert_eq!(trim(text), text.trim());
        assert_eq!(trim_end(text), text.trim_end());
    }
}

#[test]
fn affixes_are_found() {
    for text in ["", "a", "ab", "aba", "\u{e9}a", "a\u{e9}"] {
        for affix in ["", "a", "ab", "ba", "\u{e9}", "aba"] {
            assert_eq!(starts_with(text, affix), text.starts_with(affix));
            assert_eq!(ends_with(text, affix), text.ends_with(affix));
        }
    }
}

#[test]
fn numbers_are_written_in_decimal() {
    for n in [0, 9, 10, 42, 99, 100, 43210, u64::MAX] {
        assert_eq!(decimal(n), n.to_string());
    }
}

#[test]
fn console_modes_only_gain_a_bit() {
    assert_eq!(VIRTUAL_TERMINAL_INPUT, ENABLE_VIRTUAL_TERMINAL_INPUT);
    assert_eq!(VIRTUAL_TERMINAL_INPUT, 0x0200);
    assert_eq!(virtual_terminal_mode(0), 0x0200);
    assert_eq!(virtual_terminal_mode(0x01f7), 0x03f7);
    assert_eq!(virtual_terminal_mode(0x0200), 0x0200);
    assert_eq!(virtual_terminal_mode(u32::MAX), u32::MAX);
}
