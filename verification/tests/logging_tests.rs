use std::time::Instant;

use fmusim_gui::{is_whitespace, trim_end, FmiStatus, LogEntry, LogLevel};

const LEVELS: [LogLevel; 5] = [
    LogLevel::Debug,
    LogLevel::Info,
    LogLevel::Warning,
    LogLevel::Error,
    LogLevel::Fatal,
];

#[test]
fn log_level_labels() {
    assert_eq!(LogLevel::Debug.label(), "DEBUG");
    assert_eq!(LogLevel::Info.label(), "INFO");
    assert_eq!(LogLevel::Warning.label(), "WARN");
    assert_eq!(LogLevel::Error.label(), "ERROR");
    assert_eq!(LogLevel::Fatal.label(), "FATAL");
    for a in LEVELS {
        for b in LEVELS {
            assert_eq!(a == b, a.label() == b.label());
        }
    }
}

#[test]
fn log_level_order_follows_severity() {
    for (i, a) in LEVELS.iter().enumerate() {
        assert_eq!(a.rank() as usize, i);
        for (j, b) in LEVELS.iter().enumerate() {
            assert_eq!(a.at_least(*b), i >= j);
            assert!(a.at_least(*b) || b.at_least(*a));
        }
    }
    for a in LEVELS {
        for b in LEVELS {
            assert_eq!(a.at_least(b), a >= b);
        }
    }
    assert!(LogLevel::Warning.at_least(LogLevel::Info));
    assert!(!LogLevel::Debug.at_least(LogLevel::Info));
}

#[test]
fn status_levels() {
    assert_eq!(LogLevel::for_status(FmiStatus::Okay), LogLevel::Info);
    assert_eq!(LogLevel::for_status(FmiStatus::Pending), LogLevel::Info);
    assert_eq!(LogLevel::for_status(FmiStatus::Warning), LogLevel::Warning);
    assert_eq!(LogLevel::for_status(FmiStatus::Discard), LogLevel::Error);
    assert_eq!(LogLevel::for_status(FmiStatus::Error), LogLevel::Error);
    assert_eq!(LogLevel::for_status(FmiStatus::Fatal), LogLevel::Fatal);
}

#[test]
fn call_entries() {
    let at = Instant::now();
    let e = LogEntry::for_call(at, "fmi3DoStep(...)  ");
    assert_eq!(e.at, at);
    assert_eq!(e.level, LogLevel::Debug);
    assert_eq!(e.category, "FMI");
    assert_eq!(e.message, "fmi3DoStep(...)  ");
}

#[test]
fn message_entries_are_trimmed() {
    let at = Instant::now();
    let e = LogEntry::for_message(at, FmiStatus::Warning, "logStatusWarning", "step rejected \n\t");
    assert_eq!(e.at, at);
    assert_eq!(e.level, LogLevel::Warning);
    assert_eq!(e.category, "logStatusWarning");
    assert_eq!(e.message, "step rejected");
    let f = LogEntry::for_message(at, FmiStatus::Discard, "", "");
    assert_eq!(f.level, LogLevel::Error);
    assert_eq!(f.category, "");
    assert_eq!(f.message, "");
}

#[test]
fn trim_end_matches_std() {
    let cases = [
        "",
        "   ",
        "abc",
        "  abc  ",
        "a b\tc\r\n",
        "x\u{3000}\u{85}\u{a0}",
        "x\u{200b}",
        "ünïcødé \u{2028}\u{2029}",
        "\u{1680}y\u{2000}\u{200a}\u{202f}\u{205f}",
    ];
    for s in cases {
        assert_eq!(trim_end(s), s.trim_end(), "input {:?}", s);
    }
    assert_eq!(trim_end(&trim_end("a  ")), "a");
}

#[test]
fn whitespace_matches_std() {
    for u in 0u32..0x3100 {
        if let Some(c) = char::from_u32(u) {
            assert_eq!(is_whitespace(c), c.is_whitespace(), "code point {:#x}", u);
        }
    }
}

#[test]
fn level_colors() {
    assert_eq!(LogLevel::Debug.rgb(), (220, 220, 220));
    assert_eq!(LogLevel::Info.rgb(), (120, 180, 255));
    assert_eq!(LogLevel::Warning.rgb(), (255, 200, 80));
    assert_eq!(LogLevel::Error.rgb(), (255, 100, 100));
    assert_eq!(LogLevel::Fatal.rgb(), (255, 60, 60));
    let (r, g, b) = LogLevel::Debug.rgb();
    assert_eq!(egui::Color32::from_rgb(r, g, b), egui::Color32::LIGHT_GRAY);
    for a in LEVELS {
        for b in LEVELS {
            assert_eq!(a == b, a.rgb() == b.rgb());
        }
    }
}
