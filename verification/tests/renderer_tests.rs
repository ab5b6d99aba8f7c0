use ghfetch::avatar::AvatarArt;
use ghfetch::config::Config;
use ghfetch::github::{ContributionData, ContributionDay, ContributionWeek};
use ghfetch::renderer;
use ghfetch::renderer::{
    build_system_lines, render_since, right_panel_height_since, strip_ansi, truncate_to_width,
    visible_len,
};
use ghfetch::system::SystemInfo;
use ghfetch::theme::{Ansi, Gruvbox};

fn sample_system() -> SystemInfo {
    let mut s = SystemInfo::default();
    s.os = "Arch Linux".to_string();
    s.kernel = "6.12.10-arch1-1".to_string();
    s.hostname = "box".to_string();
    s.cpu = "AMD Ryzen 5 3600".to_string();
    s.gpu = "Unknown".to_string();
    s.ram_used = 8 * 1024 * 1024 * 1024;
    s.ram_total = 16 * 1024 * 1024 * 1024;
    s.shell = "zsh".to_string();
    s.terminal = "kitty".to_string();
    s.resolution = "1920x1080".to_string();
    s.uptime = "3h 42m".to_string();
    s.arch = "x86_64".to_string();
    s
}

fn day(count: u32, date: &str) -> ContributionDay {
    ContributionDay { count, color: String::new(), date: date.to_string() }
}

#[test]
fn strip_ansi_removes_sequences() {
    assert_eq!(strip_ansi("\x1b[38;2;1;2;3mhello\x1b[0m"), "hello");
    assert_eq!(strip_ansi("plain"), "plain");
    assert_eq!(strip_ansi("a\x1b[1mb\x1b[0mc"), "abc");
    assert_eq!(strip_ansi("tail\x1b[38;2"), "tail");
    assert_eq!(strip_ansi(""), "");
    assert_eq!(visible_len("\x1b[1m\u{1F47B}x\x1b[0m"), 2);
}

#[test]
fn strip_ansi_is_idempotent() {
    for s in ["\x1b[1mab\x1b[0m", "x\x1b[", "\x1b[31mred", "none"] {
        let once = strip_ansi(s);
        assert_eq!(strip_ansi(&once), once);
    }
}

#[test]
fn truncate_keeps_short_strings() {
    let s = "\x1b[1mabc\x1b[0m";
    assert_eq!(truncate_to_width(s, 3), s);
    assert_eq!(truncate_to_width(s, 10), s);
    assert_eq!(truncate_to_width("", 0), "");
}

#[test]
fn truncate_cuts_visible_characters() {
    assert_eq!(truncate_to_width("abcdef", 3), "abc\x1b[0m");
    assert_eq!(truncate_to_width("\x1b[1mabcdef\x1b[0m", 2), "\x1b[1mab\x1b[0m");
    assert_eq!(truncate_to_width("ab\x1b[31mcd", 2), "ab\x1b[31m\x1b[0m");
    assert_eq!(truncate_to_width("abc", 0), "\x1b[0m");
    for (s, w) in [("\x1b[1mabcdef\x1b[0m", 4usize), ("a\x1b[2mbc\x1b[", 1), ("xyz", 2)] {
        let t = truncate_to_width(s, w);
        assert!(visible_len(&t) <= w);
        let shown = strip_ansi(&t);
        let full = strip_ansi(s);
        assert!(full.starts_with(&shown));
    }
}

#[test]
fn system_lines_with_ghost_icons() {
    let sys = sample_system();
    let cfg = Config::default();
    let lines = build_system_lines(&sys, &cfg, None);
    assert_eq!(lines.len(), 12);
    let green = Ansi::fg_gruv(Gruvbox::GREEN);
    let reset = Ansi::reset();
    let expected_os = format!(
        "{}{}{} {}{}{}  {}{}{}",
        green, "\u{1F47B}", reset, green, "OS", reset, green, "Arch Linux", reset
    );
    assert_eq!(lines[0], expected_os);
    assert_eq!(strip_ansi(&lines[5]), "\u{1F47B} RAM  8 GiB / 16 GiB");
    assert_eq!(strip_ansi(&lines[6]), "\u{1F47B} Disk  N/A");
    assert_eq!(strip_ansi(&lines[9]), "\u{1F47B} Res  1920x1080");
}

#[test]
fn system_lines_with_nerd_font_overrides() {
    let mut sys = sample_system();
    sys.disk_used = 120 * 1024 * 1024 * 1024;
    sys.disk_total = 445 * 1024 * 1024 * 1024;
    let mut cfg = Config::default();
    cfg.display.nerd_font_icons = true;
    cfg.icons.overrides.push(("os".to_string(), "X".to_string()));
    let lines = build_system_lines(&sys, &cfg, None);
    assert_eq!(strip_ansi(&lines[0]), "X OS  Arch Linux");
    assert_eq!(strip_ansi(&lines[1]), "\u{1F47B} Kernel  6.12.10-arch1-1");
    assert_eq!(strip_ansi(&lines[6]), "\u{1F47B} Disk  120 GiB / 445 GiB");
}

fn sample_contributions() -> ContributionData {
    ContributionData {
        weeks: vec![
            ContributionWeek { days: vec![day(5, "2023-12-30"), day(1, "2023-12-31")] },
            ContributionWeek { days: vec![day(0, "2024-01-01"), day(3, "2024-01-02"), day(12, "2024-01-03")] },
        ],
        total: 0,
    }
}

#[test]
fn panel_height_counts_graph_lines() {
    let sys = sample_system();
    let cfg = Config::default();
    let c = sample_contributions();
    assert_eq!(right_panel_height_since(&sys, Some(&c), &cfg, "2024-01-01"), 22);
    assert_eq!(right_panel_height_since(&sys, Some(&c), &cfg, "2025-01-01"), 13);
    assert_eq!(right_panel_height_since(&sys, None, &cfg, "2024-01-01"), 13);
    let mut off = Config::default();
    off.display.show_contributions = false;
    assert_eq!(right_panel_height_since(&sys, Some(&c), &off, "2024-01-01"), 13);
}

#[test]
fn render_without_avatar() {
    let sys = sample_system();
    let cfg = Config::default();
    let c = sample_contributions();
    let out = render_since(None, &sys, Some(&c), &cfg, 200, "2024-01-01");
    assert_eq!(out.lines.len(), 22 + 2);
    assert_eq!(out.lines[0], "");
    assert_eq!(out.lines[23], "");
    let sys_lines = build_system_lines(&sys, &cfg, None);
    assert_eq!(out.lines[1], sys_lines[0]);
    assert_eq!(out.lines[13], "");
    assert_eq!(
        right_panel_height_since(&sys, Some(&c), &cfg, "2024-01-01") + 2,
        out.lines.len()
    );
}

#[test]
fn render_with_avatar_pads_and_cuts() {
    let sys = sample_system();
    let cfg = Config::default();
    let pixels = vec![vec![(1u8, 2u8, 3u8); 3]; 15];
    let art = AvatarArt::from_pixels(&pixels, 3);
    assert_eq!(art.width, 6);
    let out = render_since(Some(&art), &sys, None, &cfg, 20, "2024-01-01");
    assert_eq!(out.lines.len(), 15 + 2);
    for (i, line) in out.lines.iter().enumerate().skip(1).take(15) {
        let shown = strip_ansi(line);
        assert!(shown.starts_with("          "), "line {}", i);
        assert!(shown.chars().count() <= 20, "line {}", i);
    }
    assert_eq!(strip_ansi(&out.lines[1]), "          \u{1F47B} OS  Arch");
    assert_eq!(strip_ansi(&out.lines[13]), "          ");
    assert_eq!(strip_ansi(&out.lines[14]), "          ");
    assert_eq!(strip_ansi(&out.lines[15]), "          ");
}

#[test]
fn terminal_width_from_report() {
    assert_eq!(renderer::columns_or_default(Some(132)), 132);
    assert_eq!(renderer::columns_or_default(Some(1)), 1);
    assert_eq!(renderer::columns_or_default(None), 80);
    assert!(renderer::terminal_width() > 0);
}
