use ghfetch::github::{
    auth_header, contributions_cache_key, contributions_from_graphql, contributions_html_fits,
    contributions_page_url, extract_attr, extract_total_from_html, graphql_query,
    next_fetch_step, parse_contributions_html, profile_cache_key, profile_url, CalendarDay,
    ContributionSource, FetchStep,
};

const CELL: &str = r#"<td tabindex="0" data-ix="0" aria-selected="false" aria-describedby="contribution-graph-legend-level-LEVEL" style="width: 10px" data-date="DATE" id="contribution-day-component-ROW-COL" data-level="LEVEL" role="gridcell" data-view-component="true" class="ContributionCalendar-day"></td>"#;

fn cell(level: &str, date: &str, row: usize, col: usize) -> String {
    CELL.replace("LEVEL", level)
        .replace("DATE", date)
        .replace("ROW", &row.to_string())
        .replace("COL", &col.to_string())
}

fn page(cells: &[String], total: &str) -> String {
    let mut html = String::new();
    html.push_str("<div>\n  <h2 class=\"f4 text-normal mb-2\">\n      ");
    html.push_str(total);
    html.push_str("\n      contributions\n        in the last year\n  </h2>\n");
    html.push_str("<table class=\"ContributionCalendar-grid\">\n<tbody>\n");
    for c in cells {
        html.push_str("  ");
        html.push_str(c);
        html.push('\n');
    }
    html.push_str("</tbody>\n</table>\n</div>\n");
    html
}

#[test]
fn attributes() {
    let line = r#"<td data-date="2024-01-02" id="contribution-day-component-1-0" data-level="2">"#;
    assert_eq!(extract_attr(line, "data-date"), Some("2024-01-02".to_string()));
    assert_eq!(extract_attr(line, "data-level"), Some("2".to_string()));
    assert_eq!(extract_attr(line, "id"), Some("contribution-day-component-1-0".to_string()));
    assert_eq!(extract_attr(line, "class"), None);
    assert_eq!(extract_attr(r#"a="unterminated"#, "a"), None);
    assert_eq!(extract_attr(r#"x="""#, "x"), Some(String::new()));
}

#[test]
fn total_from_page() {
    assert_eq!(extract_total_from_html(&page(&[], "73")), Some(73));
    assert_eq!(extract_total_from_html(&page(&[], "1,234")), None);
    assert_eq!(extract_total_from_html("no total here"), None);
    assert_eq!(extract_total_from_html("5\n  +7 \nin the last year"), Some(7));
}

#[test]
fn calendar_from_page() {
    let cells = vec![
        cell("0", "2023-12-31", 0, 0),
        cell("1", "2024-01-01", 1, 0),
        cell("4", "2024-01-07", 0, 1),
        cell("3", "2024-01-09", 2, 1),
        cell("2", "2024-01-20", 6, 3),
    ];
    let html = page(&cells, "73");
    assert!(contributions_html_fits(&html));
    let data = parse_contributions_html(&html).unwrap();
    assert_eq!(data.total, 73);
    assert_eq!(data.weeks.len(), 3);
    let w0: Vec<(u32, &str)> = data.weeks[0].days.iter().map(|d| (d.count, d.date.as_str())).collect();
    assert_eq!(w0, vec![(0, "2023-12-31"), (3, "2024-01-01")]);
    let w1: Vec<(u32, &str)> = data.weeks[1].days.iter().map(|d| (d.count, d.date.as_str())).collect();
    assert_eq!(w1, vec![(130, "2024-01-07"), (0, ""), (17, "2024-01-09")]);
    assert_eq!(data.weeks[2].days.len(), 7);
    assert_eq!(data.weeks[2].days[6].count, 8);
    assert_eq!(data.weeks[2].days[0].date, "");
    for w in &data.weeks {
        for d in &w.days {
            assert_eq!(d.color, "");
        }
    }
}

#[test]
fn later_cell_wins_and_bad_ids_read_zero() {
    let cells = vec![
        cell("1", "a", 0, 0),
        cell("2", "b", 0, 0),
        r#"<td data-level="9" data-date="c" id="nodash">"#.to_string(),
        r#"<td data-level="4" data-date="d" id="x-y-z">"#.to_string(),
    ];
    let data = parse_contributions_html(&page(&cells, "x")).unwrap();
    assert_eq!(data.total, 0);
    assert_eq!(data.weeks.len(), 1);
    assert_eq!(data.weeks[0].days.len(), 1);
    assert_eq!(data.weeks[0].days[0].count, 130);
    assert_eq!(data.weeks[0].days[0].date, "d");
}

#[test]
fn page_without_calendar() {
    assert!(parse_contributions_html("<html></html>").is_none());
    assert!(parse_contributions_html("<table>\n<tr><td></td></tr>\n</table>").is_none());
    assert!(parse_contributions_html("<table>no end").is_none());
}

#[test]
fn huge_column_does_not_fit() {
    let html = page(&[cell("1", "a", 0, usize::MAX)], "1");
    assert!(!contributions_html_fits(&html));
}

#[test]
fn request_texts() {
    assert_eq!(auth_header(&Some("abc".to_string())), Some("Bearer abc".to_string()));
    assert_eq!(auth_header(&None), None);
    assert_eq!(profile_url("octocat"), "https://api.github.com/users/octocat");
    assert_eq!(profile_cache_key("octocat"), "profile_octocat");
    assert_eq!(contributions_cache_key("octocat"), "contrib_octocat");
    assert_eq!(
        contributions_page_url("octocat"),
        "https://github.com/users/octocat/contributions"
    );
    let expected = format!(
        r#"{{"query":"query {{ user(login: \"{}\") {{ contributionsCollection {{ contributionCalendar {{ totalContributions weeks {{ contributionDays {{ contributionCount date color }} }} }} }} }}"}}"#,
        "octocat"
    );
    assert_eq!(graphql_query("octocat"), expected);
}

#[test]
fn graphql_counts_keep_low_bits() {
    let weeks = vec![
        vec![
            CalendarDay { count: 7, color: "#216e39".to_string(), date: "2024-01-01".to_string() },
            CalendarDay { count: (1u64 << 32) + 5, color: "#fff".to_string(), date: "2024-01-02".to_string() },
        ],
        vec![],
    ];
    let data = contributions_from_graphql((1u64 << 33) + 9, weeks);
    assert_eq!(data.total, 9);
    assert_eq!(data.weeks.len(), 2);
    assert_eq!(data.weeks[0].days[0].count, 7);
    assert_eq!(data.weeks[0].days[0].color, "#216e39");
    assert_eq!(data.weeks[0].days[1].count, 5);
    assert_eq!(data.weeks[0].days[1].date, "2024-01-02");
    assert_eq!(data.weeks[1].days.len(), 0);
}

#[test]
fn contribution_sources_in_order() {
    assert!(matches!(next_fetch_step(None, false, true), FetchStep::Ask(ContributionSource::Cache)));
    assert!(matches!(next_fetch_step(Some(ContributionSource::Cache), true, true), FetchStep::Found { store: false }));
    assert!(matches!(next_fetch_step(Some(ContributionSource::Cache), false, true), FetchStep::Ask(ContributionSource::GraphQl)));
    assert!(matches!(next_fetch_step(Some(ContributionSource::Cache), false, false), FetchStep::Ask(ContributionSource::Page)));
    assert!(matches!(next_fetch_step(Some(ContributionSource::GraphQl), true, true), FetchStep::Found { store: true }));
    assert!(matches!(next_fetch_step(Some(ContributionSource::GraphQl), false, true), FetchStep::Ask(ContributionSource::Page)));
    assert!(matches!(next_fetch_step(Some(ContributionSource::Page), true, false), FetchStep::Found { store: true }));
    assert!(matches!(next_fetch_step(Some(ContributionSource::Page), false, false), FetchStep::NotFound));
}
