use ghfetch::contributions::{
    bg_cell, cell_for_level, contribution_level, current_year_start, render_graph, render_graph_since,
};
use ghfetch::github::{ContributionData, ContributionDay, ContributionWeek};
use ghfetch::renderer::strip_ansi;
use ghfetch::theme::{Ansi, Gruvbox};

fn day(count: u32, date: &str) -> ContributionDay {
    ContributionDay { count, color: String::new(), date: date.to_string() }
}

fn expected_bg_cell(color: u8) -> String {
    let (r, g, b) = Gruvbox::rgb(color);
    format!("{}{}{}", Ansi::bg_rgb(r, g, b), ' ', Ansi::reset())
}

fn expected_level(count: u32) -> u32 {
    match count {
        0 => 0,
        1..=3 => 1,
        4..=9 => 2,
        10..=19 => 3,
        _ => 4,
    }
}

fn expected_cell(level: u32) -> String {
    let color = match level {
        0 => Gruvbox::BG1,
        1 => Gruvbox::AQUA,
        2 => Gruvbox::GREEN,
        3 => Gruvbox::YELLOW,
        _ => Gruvbox::ORANGE,
    };
    expected_bg_cell(color)
}

fn expected_graph(data: &ContributionData, year_start: &str) -> String {
    let weeks = &data.weeks;
    if weeks.is_empty() {
        return String::new();
    }
    let filtered: Vec<&ContributionWeek> =
        weeks.iter().filter(|w| w.days.iter().any(|d| d.date.as_str() >= year_start)).collect();
    if filtered.is_empty() {
        return String::new();
    }
    let total: u32 = filtered
        .iter()
        .flat_map(|w| w.days.iter())
        .filter(|d| d.date.as_str() >= year_start)
        .map(|d| d.count)
        .sum();
    let mut output = String::new();
    output.push_str(&format!(
        "{}{} contribuciones{}{}  ",
        Ansi::fg_gruv(Gruvbox::YELLOW),
        total,
        Ansi::reset(),
        Ansi::fg_gruv(Gruvbox::FG3),
    ));
    output.push_str(&format!(
        "{}Menos{}{}",
        Ansi::fg_gruv(Gruvbox::BG3),
        Ansi::reset(),
        expected_bg_cell(Gruvbox::BG1),
    ));
    output.push_str(&expected_bg_cell(Gruvbox::GREEN));
    output.push_str(&expected_bg_cell(Gruvbox::YELLOW));
    output.push_str(&expected_bg_cell(Gruvbox::ORANGE));
    output.push_str(&format!(
        "  {}{}Mas{}",
        Ansi::fg_gruv(Gruvbox::BG3),
        Ansi::reset(),
        Ansi::fg_gruv(Gruvbox::BG3),
    ));
    output.push('\n');
    output.push('\n');
    for day_of_week in 0..7 {
        let mut row = String::new();
        for week in &filtered {
            if day_of_week < week.days.len() {
                let d = &week.days[day_of_week];
                if d.date.as_str() >= year_start {
                    row.push_str(&expected_cell(expected_level(d.count)));
                } else {
                    row.push_str(&expected_bg_cell(Gruvbox::BG));
                }
            } else {
                row.push_str(&expected_bg_cell(Gruvbox::BG));
            }
        }
        output.push_str("  ");
        output.push_str(&row);
        output.push('\n');
    }
    output
}

fn sample() -> ContributionData {
    ContributionData {
        weeks: vec![
            ContributionWeek { days: vec![day(5, "2023-12-30"), day(1, "2023-12-31")] },
            ContributionWeek {
                days: vec![
                    day(0, "2023-12-31"),
                    day(3, "2024-01-01"),
                    day(12, "2024-01-02"),
                    day(25, "2024-01-03"),
                ],
            },
            ContributionWeek {
                days: vec![
                    day(1, "2024-01-07"),
                    day(4, "2024-01-08"),
                    day(9, "2024-01-09"),
                    day(10, "2024-01-10"),
                    day(19, "2024-01-11"),
                    day(20, "2024-01-12"),
                    day(0, "2024-01-13"),
                ],
            },
        ],
        total: 99,
    }
}

#[test]
fn levels() {
    for c in [0u32, 1, 3, 4, 9, 10, 19, 20, 1000, u32::MAX] {
        assert_eq!(contribution_level(c), expected_level(c));
    }
    assert_eq!(contribution_level(0), 0);
    assert_eq!(contribution_level(3), 1);
    assert_eq!(contribution_level(4), 2);
    assert_eq!(contribution_level(19), 3);
    assert_eq!(contribution_level(20), 4);
}

#[test]
fn cells() {
    for l in 0..6u32 {
        assert_eq!(cell_for_level(l), expected_cell(l));
    }
    assert_eq!(bg_cell(Gruvbox::BG), "\x1b[48;2;40;40;40m \x1b[0m");
    assert_eq!(strip_ansi(&bg_cell(Gruvbox::ORANGE)), " ");
}

#[test]
fn graph_matches_expected_layout() {
    let data = sample();
    for start in ["2024-01-01", "2023-01-01", "2024-01-08", "2025-01-01", ""] {
        assert_eq!(render_graph_since(&data, start), expected_graph(&data, start), "{}", start);
    }
}

#[test]
fn graph_header_total() {
    let data = sample();
    let g = render_graph_since(&data, "2024-01-01");
    let first = g.lines().next().unwrap().to_string();
    assert!(strip_ansi(&first).starts_with("103 contribuciones  Menos"));
    assert_eq!(g.lines().count(), 9);
    let rows: Vec<&str> = g.lines().skip(2).collect();
    for r in rows {
        assert_eq!(strip_ansi(r), "    ");
    }
}

#[test]
fn graph_empty_cases() {
    let empty = ContributionData { weeks: vec![], total: 0 };
    assert_eq!(render_graph_since(&empty, "2024-01-01"), "");
    assert_eq!(render_graph(&empty, 53), Some(String::new()));
    let old = ContributionData {
        weeks: vec![ContributionWeek { days: vec![day(3, "1999-05-05")] }],
        total: 3,
    };
    assert_eq!(render_graph_since(&old, "2024-01-01"), "");
}

#[test]
fn graph_of_this_year() {
    let data = ContributionData {
        weeks: vec![ContributionWeek { days: vec![day(2, "9999-12-31")] }],
        total: 2,
    };
    let g = render_graph(&data, 53).unwrap();
    assert_eq!(g.lines().count(), 9);
    assert!(strip_ansi(&g).starts_with("2 contribuciones"));
}

#[test]
fn graph_of_this_year_leaves_out_past_years() {
    // A huge count from an earlier year neither shows nor stops the graph.
    let data = ContributionData {
        weeks: vec![
            ContributionWeek { days: vec![day(u32::MAX, "1999-05-05")] },
            ContributionWeek { days: vec![day(u32::MAX, "1999-05-12")] },
            ContributionWeek { days: vec![day(4, "9999-12-31")] },
        ],
        total: 0,
    };
    let g = render_graph(&data, 53).unwrap();
    assert!(strip_ansi(&g).starts_with("4 contribuciones"));
}

#[test]
fn graph_of_this_year_too_large() {
    let data = ContributionData {
        weeks: vec![
            ContributionWeek { days: vec![day(u32::MAX, "9999-01-05")] },
            ContributionWeek { days: vec![day(1, "9999-12-31")] },
        ],
        total: 0,
    };
    assert_eq!(render_graph(&data, 53), None);
}

#[test]
fn year_start_has_year_form() {
    let s = current_year_start();
    let year = s.strip_suffix("-01-01").unwrap();
    assert!(year.len() == 4 && year.chars().all(|c| c.is_ascii_digit()));
}
