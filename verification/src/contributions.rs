//! The contribution graph: a calendar of coloured cells for this year, one
//! column per week and one row per day of the week, under a header with the
//! year's total and a legend.
use vstd::prelude::*;

use crate::github::{ContributionData, ContributionDay, ContributionWeek};
use crate::text::{
    all_digits, chars_of, dec, digit, lemma_lines_cons, lemma_one_line_concat, lex_ge, lines, one_line,
    push_char, push_dec, push_str, str_ge,
};
use crate::theme::{
    bg_gruv_seq, esc, fg_gruv_seq, palette, push_bg_gruv, push_fg_gruv, push_reset, reset_seq,
    rgb_seq, Gruvbox,
};

verus! {

// ---------------------------------------------------------------------------
// Specification
// ---------------------------------------------------------------------------
/// The day falls on or after `cutoff` (dates compare as strings).
pub open spec fn in_range(d: ContributionDay, cutoff: Seq<char>) -> bool {
    lex_ge(d.date@, cutoff)
}

/// The week has a day on or after `cutoff`.
pub open spec fn has_day_in_range(w: ContributionWeek, cutoff: Seq<char>) -> bool {
    exists|i: int| 0 <= i < w.days@.len() && #[trigger] in_range(w.days@[i], cutoff)
}

/// The weeks that the graph shows: those with a day on or after `cutoff`,
/// in their order.
pub open spec fn shown_weeks(ws: Seq<ContributionWeek>, cutoff: Seq<char>) -> Seq<
    ContributionWeek,
>
    decreases ws.len(),
{
    if ws.len() == 0 {
        Seq::empty()
    } else if has_day_in_range(ws.last(), cutoff) {
        shown_weeks(ws.drop_last(), cutoff).push(ws.last())
    } else {
        shown_weeks(ws.drop_last(), cutoff)
    }
}

/// The sum of the counts of the days on or after `cutoff`.
pub open spec fn days_total(ds: Seq<ContributionDay>, cutoff: Seq<char>) -> nat
    decreases ds.len(),
{
    if ds.len() == 0 {
        0
    } else {
        days_total(ds.drop_last(), cutoff) + if in_range(ds.last(), cutoff) {
            ds.last().count as nat
        } else {
            0
        }
    }
}

/// The sum of the counts of all days on or after `cutoff`, over all weeks.
/// (Weeks that are not shown have no such day, so this is the total of the
/// weeks shown.)
pub open spec fn range_total(ws: Seq<ContributionWeek>, cutoff: Seq<char>) -> nat
    decreases ws.len(),
{
    if ws.len() == 0 {
        0
    } else {
        range_total(ws.drop_last(), cutoff) + days_total(ws.last().days@, cutoff)
    }
}

/// The intensity level of a day's count: 0 for none, then 1 up to 3, 2 up
/// to 9, 3 up to 19, 4 beyond.
pub open spec fn level(count: u32) -> u32 {
    if count == 0 {
        0
    } else if count <= 3 {
        1
    } else if count <= 9 {
        2
    } else if count <= 19 {
        3
    } else {
        4
    }
}

/// The palette colour of an intensity level.
pub open spec fn level_color(level: u32) -> u8 {
    if level == 0 {
        Gruvbox::BG1
    } else if level == 1 {
        Gruvbox::AQUA
    } else if level == 2 {
        Gruvbox::GREEN
    } else if level == 3 {
        Gruvbox::YELLOW
    } else {
        Gruvbox::ORANGE
    }
}

/// Law: more contributions never give a lower level, and levels run from 0
/// (no contribution) to 4.
pub proof fn law_level_monotone(a: u32, b: u32)
    ensures
        a <= b ==> level(a) <= level(b),
        level(a) <= 4,
        level(a) == 0 <==> a == 0,
{
}

/// One cell: a space on the background of palette colour `color`.
pub open spec fn bg_cell_seq(color: int) -> Seq<char> {
    bg_gruv_seq(color) + seq![' '] + reset_seq()
}

/// The cell of week `w` in row `d`: its level's colour for a day on or after
/// `cutoff`, the background colour for an earlier day or a missing one.
pub open spec fn day_cell(w: ContributionWeek, d: int, cutoff: Seq<char>) -> Seq<char> {
    if d < w.days@.len() && in_range(w.days@[d], cutoff) {
        bg_cell_seq(level_color(level(w.days@[d].count)) as int)
    } else {
        bg_cell_seq(Gruvbox::BG as int)
    }
}

/// Row `d` of the graph: the cells of the weeks, left to right.
pub open spec fn row_cells(ws: Seq<ContributionWeek>, d: int, cutoff: Seq<char>) -> Seq<char>
    decreases ws.len(),
{
    if ws.len() == 0 {
        Seq::empty()
    } else {
        row_cells(ws.drop_last(), d, cutoff) + day_cell(ws.last(), d, cutoff)
    }
}

/// The first `n` rows, each indented by two spaces and ended by a newline.
pub open spec fn graph_rows(ws: Seq<ContributionWeek>, cutoff: Seq<char>, n: nat) -> Seq<char>
    decreases n,
{
    if n == 0 {
        Seq::empty()
    } else {
        graph_rows(ws, cutoff, (n - 1) as nat) + seq![' ', ' '] + row_cells(
            ws,
            n - 1,
            cutoff,
        ) + seq!['\n']
    }
}

/// The total part of the header.
pub open spec fn header_total(total: nat) -> Seq<char> {
    fg_gruv_seq(Gruvbox::YELLOW as int) + dec(total) + " contribuciones"@ + reset_seq()
        + fg_gruv_seq(Gruvbox::FG3 as int) + seq![' ', ' ']
}

/// The legend part of the header: "Menos", the colours of the levels, "Mas".
pub open spec fn header_legend() -> Seq<char> {
    fg_gruv_seq(Gruvbox::BG3 as int) + "Menos"@ + reset_seq() + bg_cell_seq(Gruvbox::BG1 as int)
        + bg_cell_seq(Gruvbox::GREEN as int) + bg_cell_seq(Gruvbox::YELLOW as int) + bg_cell_seq(
        Gruvbox::ORANGE as int,
    ) + seq![' ', ' '] + fg_gruv_seq(Gruvbox::BG3 as int) + reset_seq() + "Mas"@ + fg_gruv_seq(
        Gruvbox::BG3 as int,
    )
}

/// The header: the total, then the legend from "Menos" to "Mas".
pub open spec fn graph_header(total: nat) -> Seq<char> {
    header_total(total) + header_legend()
}

/// The graph of the weeks with days on or after `cutoff`: the header, an
/// empty line, and seven rows; nothing at all when no week has such a day.
pub open spec fn graph_text(ws: Seq<ContributionWeek>, cutoff: Seq<char>) -> Seq<char> {
    let shown = shown_weeks(ws, cutoff);
    if shown.len() == 0 {
        Seq::empty()
    } else {
        graph_header(range_total(ws, cutoff)) + seq!['\n', '\n'] + graph_rows(shown, cutoff, 7)
    }
}

/// The first day of the year `year`, `YYYY-01-01`.
pub open spec fn year_start(year: Seq<char>) -> Seq<char> {
    year + "-01-01"@
}

// ---------------------------------------------------------------------------
// Lemmas
// ---------------------------------------------------------------------------
proof fn lemma_days_total_prefix(ds: Seq<ContributionDay>, cutoff: Seq<char>, k: int)
    requires
        0 <= k <= ds.len(),
    ensures
        days_total(ds.take(k), cutoff) <= days_total(ds, cutoff),
    decreases ds.len() - k,
{
    if k < ds.len() {
        lemma_days_total_prefix(ds, cutoff, k + 1);
        assert(ds.take(k + 1).drop_last() =~= ds.take(k));
    } else {
        assert(ds.take(k) =~= ds);
    }
}

proof fn lemma_range_total_prefix(ws: Seq<ContributionWeek>, cutoff: Seq<char>, k: int)
    requires
        0 <= k <= ws.len(),
    ensures
        range_total(ws.take(k), cutoff) <= range_total(ws, cutoff),
    decreases ws.len() - k,
{
    if k < ws.len() {
        lemma_range_total_prefix(ws, cutoff, k + 1);
        assert(ws.take(k + 1).drop_last() =~= ws.take(k));
    } else {
        assert(ws.take(k) =~= ws);
    }
}

// ---------------------------------------------------------------------------
// The lines of the graph
// ---------------------------------------------------------------------------
/// Row `d` as a line: two spaces, then the cells.
pub open spec fn row_line(ws: Seq<ContributionWeek>, cutoff: Seq<char>, d: int) -> Seq<char> {
    seq![' ', ' '] + row_cells(ws, d, cutoff)
}

/// The lines of the graph: the header, an empty line and the seven rows,
/// or none at all.
pub open spec fn graph_lines_of(ws: Seq<ContributionWeek>, cutoff: Seq<char>) -> Seq<Seq<char>> {
    let shown = shown_weeks(ws, cutoff);
    if shown.len() == 0 {
        Seq::empty()
    } else {
        seq![graph_header(range_total(ws, cutoff)), Seq::<char>::empty()] + Seq::new(
            7,
            |d: int| row_line(shown, cutoff, d),
        )
    }
}

proof fn lemma_dec_one_line(n: nat)
    ensures
        one_line(dec(n)),
    decreases n,
{
    assert(one_line(seq![digit(n % 10)])) by {
        assert(digit(n % 10) == ((n % 10 + 48) as u8) as char);
        assert(48 <= (n % 10 + 48) as u8 <= 57);
    }
    if n >= 10 {
        lemma_dec_one_line(n / 10);
        lemma_one_line_concat(dec(n / 10), seq![digit(n % 10)]);
        assert(dec(n) =~= dec(n / 10) + seq![digit(n % 10)]);
    } else {
        assert(dec(n) == seq![digit(n)]);
        assert(n % 10 == n);
    }
}

proof fn lemma_rgb_one_line(layer: char, r: u8, g: u8, b: u8)
    requires
        layer == '3' || layer == '4',
    ensures
        one_line(rgb_seq(layer, r, g, b)),
{
    let head = seq![esc(), '[', layer, '8', ';', '2', ';'];
    assert(one_line(head));
    assert(one_line(seq![';']));
    assert(one_line(seq!['m']));
    lemma_dec_one_line(r as nat);
    lemma_dec_one_line(g as nat);
    lemma_dec_one_line(b as nat);
    lemma_one_line_concat(head, dec(r as nat));
    lemma_one_line_concat(head + dec(r as nat), seq![';']);
    lemma_one_line_concat(head + dec(r as nat) + seq![';'], dec(g as nat));
    lemma_one_line_concat(head + dec(r as nat) + seq![';'] + dec(g as nat), seq![';']);
    lemma_one_line_concat(
        head + dec(r as nat) + seq![';'] + dec(g as nat) + seq![';'],
        dec(b as nat),
    );
    lemma_one_line_concat(
        head + dec(r as nat) + seq![';'] + dec(g as nat) + seq![';'] + dec(b as nat),
        seq!['m'],
    );
}

proof fn lemma_cell_one_line(c: int)
    ensures
        one_line(bg_cell_seq(c)),
        one_line(fg_gruv_seq(c)),
        one_line(reset_seq()),
{
    let p = palette(c);
    lemma_rgb_one_line('4', p.0, p.1, p.2);
    lemma_rgb_one_line('3', p.0, p.1, p.2);
    assert(one_line(reset_seq()));
    assert(one_line(seq![' ']));
    lemma_one_line_concat(bg_gruv_seq(c), seq![' ']);
    lemma_one_line_concat(bg_gruv_seq(c) + seq![' '], reset_seq());
}

proof fn lemma_row_cells_one_line(ws: Seq<ContributionWeek>, d: int, cutoff: Seq<char>)
    ensures
        one_line(row_cells(ws, d, cutoff)),
    decreases ws.len(),
{
    if ws.len() > 0 {
        lemma_row_cells_one_line(ws.drop_last(), d, cutoff);
        let w = ws.last();
        if d < w.days@.len() && in_range(w.days@[d], cutoff) {
            lemma_cell_one_line(level_color(level(w.days@[d].count)) as int);
        } else {
            lemma_cell_one_line(Gruvbox::BG as int);
        }
        lemma_one_line_concat(row_cells(ws.drop_last(), d, cutoff), day_cell(w, d, cutoff));
    } else {
        assert(one_line(Seq::<char>::empty()));
    }
}

proof fn lemma_header_one_line(total: nat)
    ensures
        one_line(graph_header(total)),
{
    reveal_strlit(" contribuciones");
    reveal_strlit("Menos");
    reveal_strlit("Mas");
    let y = fg_gruv_seq(Gruvbox::YELLOW as int);
    let f3 = fg_gruv_seq(Gruvbox::FG3 as int);
    let b3 = fg_gruv_seq(Gruvbox::BG3 as int);
    lemma_cell_one_line(Gruvbox::YELLOW as int);
    lemma_cell_one_line(Gruvbox::FG3 as int);
    lemma_cell_one_line(Gruvbox::BG3 as int);
    lemma_cell_one_line(Gruvbox::BG1 as int);
    lemma_cell_one_line(Gruvbox::GREEN as int);
    lemma_cell_one_line(Gruvbox::ORANGE as int);
    lemma_dec_one_line(total);
    let w1 = " contribuciones"@;
    let w2 = "Menos"@;
    let w3 = "Mas"@;
    assert(one_line(w1));
    assert(one_line(w2));
    assert(one_line(w3));
    let sp = seq![' ', ' '];
    assert(one_line(sp));
    let r = reset_seq();
    lemma_one_line_concat(y, dec(total));
    lemma_one_line_concat(y + dec(total), w1);
    lemma_one_line_concat(y + dec(total) + w1, r);
    lemma_one_line_concat(y + dec(total) + w1 + r, f3);
    lemma_one_line_concat(y + dec(total) + w1 + r + f3, sp);
    let t = header_total(total);
    assert(t == y + dec(total) + w1 + r + f3 + sp);
    let c1 = bg_cell_seq(Gruvbox::BG1 as int);
    let c2 = bg_cell_seq(Gruvbox::GREEN as int);
    let c3 = bg_cell_seq(Gruvbox::YELLOW as int);
    let c4 = bg_cell_seq(Gruvbox::ORANGE as int);
    lemma_one_line_concat(b3, w2);
    lemma_one_line_concat(b3 + w2, r);
    lemma_one_line_concat(b3 + w2 + r, c1);
    lemma_one_line_concat(b3 + w2 + r + c1, c2);
    lemma_one_line_concat(b3 + w2 + r + c1 + c2, c3);
    lemma_one_line_concat(b3 + w2 + r + c1 + c2 + c3, c4);
    lemma_one_line_concat(b3 + w2 + r + c1 + c2 + c3 + c4, sp);
    lemma_one_line_concat(b3 + w2 + r + c1 + c2 + c3 + c4 + sp, b3);
    lemma_one_line_concat(b3 + w2 + r + c1 + c2 + c3 + c4 + sp + b3, r);
    lemma_one_line_concat(b3 + w2 + r + c1 + c2 + c3 + c4 + sp + b3 + r, w3);
    lemma_one_line_concat(b3 + w2 + r + c1 + c2 + c3 + c4 + sp + b3 + r + w3, b3);
    let l = header_legend();
    assert(l == b3 + w2 + r + c1 + c2 + c3 + c4 + sp + b3 + r + w3 + b3);
    lemma_one_line_concat(t, l);
}

proof fn lemma_rows_lines(ws: Seq<ContributionWeek>, cutoff: Seq<char>, n: nat, t: Seq<char>)
    ensures
        lines(graph_rows(ws, cutoff, n) + t) == Seq::new(n, |d: int| row_line(ws, cutoff, d))
            + lines(t),
    decreases n,
{
    if n == 0 {
        assert(graph_rows(ws, cutoff, n) + t =~= t);
        assert(Seq::new(n, |d: int| row_line(ws, cutoff, d)) + lines(t) =~= lines(t));
    } else {
        let m = (n - 1) as nat;
        let rl = row_line(ws, cutoff, m as int);
        let t2 = rl + seq!['\n'] + t;
        assert(graph_rows(ws, cutoff, n) + t =~= graph_rows(ws, cutoff, m) + t2);
        lemma_rows_lines(ws, cutoff, m, t2);
        lemma_row_cells_one_line(ws, m as int, cutoff);
        assert(one_line(seq![' ', ' ']));
        lemma_one_line_concat(seq![' ', ' '], row_cells(ws, m as int, cutoff));
        lemma_lines_cons(rl, t);
        assert(Seq::new(n, |d: int| row_line(ws, cutoff, d)) =~= Seq::new(
            m,
            |d: int| row_line(ws, cutoff, d),
        ).push(rl));
        assert(Seq::new(m, |d: int| row_line(ws, cutoff, d)) + (seq![rl] + lines(t)) =~= Seq::new(
            n,
            |d: int| row_line(ws, cutoff, d),
        ) + lines(t));
    }
}

/// Law: the graph is a header line, an empty line and one line per day of
/// the week, nine lines in all, or nothing when no week is shown.
pub proof fn law_graph_lines(ws: Seq<ContributionWeek>, cutoff: Seq<char>)
    ensures
        lines(graph_text(ws, cutoff)) == graph_lines_of(ws, cutoff),
        lines(graph_text(ws, cutoff)).len() == if shown_weeks(ws, cutoff).len() == 0 {
            0nat
        } else {
            9nat
        },
{
    let shown = shown_weeks(ws, cutoff);
    if shown.len() == 0 {
        assert(lines(Seq::<char>::empty()) =~= Seq::<Seq<char>>::empty());
    } else {
        let h = graph_header(range_total(ws, cutoff));
        let r7 = graph_rows(shown, cutoff, 7);
        lemma_header_one_line(range_total(ws, cutoff));
        assert(one_line(Seq::<char>::empty()));
        lemma_rows_lines(shown, cutoff, 7, Seq::empty());
        assert(r7 + Seq::<char>::empty() =~= r7);
        assert(lines(Seq::<char>::empty()) =~= Seq::<Seq<char>>::empty());
        lemma_lines_cons(Seq::<char>::empty(), r7);
        assert(Seq::<char>::empty() + seq!['\n'] + r7 =~= seq!['\n'] + r7);
        lemma_lines_cons(h, seq!['\n'] + r7);
        assert(graph_text(ws, cutoff) =~= h + seq!['\n'] + (seq!['\n'] + r7));
        let rows = Seq::new(7, |d: int| row_line(shown, cutoff, d));
        assert(rows + Seq::<Seq<char>>::empty() =~= rows);
        assert(seq![h] + (seq![Seq::<char>::empty()] + rows) =~= graph_lines_of(ws, cutoff));
    }
}

// ---------------------------------------------------------------------------
// Implementation
// ---------------------------------------------------------------------------
/// The intensity level of a day's count.
pub fn contribution_level(count: u32) -> (l: u32)
    ensures
        l == level(count),
{
    if count == 0 {
        0
    } else if count <= 3 {
        1
    } else if count <= 9 {
        2
    } else if count <= 19 {
        3
    } else {
        4
    }
}

fn push_bg_cell(s: &mut String, color: u8)
    requires
        color < 20,
    ensures
        final(s)@ == old(s)@ + bg_cell_seq(color as int),
{
    let ghost start = s@;
    push_bg_gruv(s, color);
    push_char(s, ' ');
    push_reset(s);
    assert(s@ =~= start + bg_cell_seq(color as int));
}

/// A cell on the background of palette colour `color`.
pub fn bg_cell(color: u8) -> (s: String)
    requires
        color < 20,
    ensures
        s@ == bg_cell_seq(color as int),
{
    let mut s = String::new();
    push_bg_cell(&mut s, color);
    assert(s@ =~= bg_cell_seq(color as int));
    s
}

fn level_palette(level: u32) -> (c: u8)
    ensures
        c == level_color(level),
        c < 20,
{
    if level == 0 {
        Gruvbox::BG1
    } else if level == 1 {
        Gruvbox::AQUA
    } else if level == 2 {
        Gruvbox::GREEN
    } else if level == 3 {
        Gruvbox::YELLOW
    } else {
        Gruvbox::ORANGE
    }
}

/// The cell of an intensity level.
pub fn cell_for_level(level: u32) -> (s: String)
    ensures
        s@ == bg_cell_seq(level_color(level) as int),
{
    bg_cell(level_palette(level))
}

fn day_in_range(d: &ContributionDay, cutoff: &Vec<char>) -> (r: bool)
    ensures
        r == in_range(*d, cutoff@),
{
    let date = chars_of(d.date.as_str());
    str_ge(date.as_slice(), cutoff.as_slice())
}

fn week_in_range(w: &ContributionWeek, cutoff: &Vec<char>) -> (r: bool)
    ensures
        r == has_day_in_range(*w, cutoff@),
{
    let mut i: usize = 0;
    while i < w.days.len()
        invariant
            i <= w.days@.len(),
            forall|j: int| 0 <= j < i ==> !#[trigger] in_range(w.days@[j], cutoff@),
        decreases w.days@.len() - i,
    {
        if day_in_range(&w.days[i], cutoff) {
            return true;
        }
        i = i + 1;
    }
    false
}

/// The shown weeks, as indices into `ws`.
fn shown_indices(ws: &Vec<ContributionWeek>, cutoff: &Vec<char>) -> (idx: Vec<usize>)
    ensures
        forall|k: int| 0 <= k < idx@.len() ==> idx@[k] < ws@.len(),
        shown_weeks(ws@, cutoff@) == Seq::new(idx@.len(), |k: int| ws@[idx@[k] as int]),
{
    let mut idx: Vec<usize> = Vec::new();
    let mut i: usize = 0;
    while i < ws.len()
        invariant
            i <= ws@.len(),
            forall|k: int| 0 <= k < idx@.len() ==> idx@[k] < i,
            shown_weeks(ws@.take(i as int), cutoff@) == Seq::new(
                idx@.len(),
                |k: int| ws@[idx@[k] as int],
            ),
        decreases ws@.len() - i,
    {
        assert(ws@.take(i + 1).drop_last() =~= ws@.take(i as int));
        let ghost before = Seq::new(idx@.len(), |k: int| ws@[idx@[k] as int]);
        if week_in_range(&ws[i], cutoff) {
            idx.push(i);
            assert(Seq::new(idx@.len(), |k: int| ws@[idx@[k] as int]) =~= before.push(
                ws@[i as int],
            ));
        }
        i = i + 1;
    }
    assert(ws@.take(i as int) =~= ws@);
    idx
}

fn days_sum(ds: &Vec<ContributionDay>, cutoff: &Vec<char>, acc: u32, bound: Ghost<nat>) -> (r:
    u32)
    requires
        acc + days_total(ds@, cutoff@) <= bound@,
        bound@ <= u32::MAX,
    ensures
        r == acc + days_total(ds@, cutoff@),
{
    let mut sum = acc;
    let mut j: usize = 0;
    while j < ds.len()
        invariant
            j <= ds@.len(),
            acc + days_total(ds@, cutoff@) <= bound@,
            bound@ <= u32::MAX,
            sum == acc + days_total(ds@.take(j as int), cutoff@),
        decreases ds@.len() - j,
    {
        assert(ds@.take(j + 1).drop_last() =~= ds@.take(j as int));
        proof {
            lemma_days_total_prefix(ds@, cutoff@, j + 1);
        }
        if day_in_range(&ds[j], cutoff) {
            sum = sum + ds[j].count;
        }
        j = j + 1;
    }
    assert(ds@.take(j as int) =~= ds@);
    sum
}

/// The sum of the counts of the days on or after `cutoff`.
fn total_in_range(ws: &Vec<ContributionWeek>, cutoff: &Vec<char>) -> (t: u32)
    requires
        range_total(ws@, cutoff@) <= u32::MAX,
    ensures
        t == range_total(ws@, cutoff@),
{
    let mut total: u32 = 0;
    let mut i: usize = 0;
    while i < ws.len()
        invariant
            i <= ws@.len(),
            range_total(ws@, cutoff@) <= u32::MAX,
            total == range_total(ws@.take(i as int), cutoff@),
        decreases ws@.len() - i,
    {
        assert(ws@.take(i + 1).drop_last() =~= ws@.take(i as int));
        proof {
            lemma_range_total_prefix(ws@, cutoff@, i + 1);
        }
        total = days_sum(&ws[i].days, cutoff, total, Ghost(range_total(ws@, cutoff@)));
        i = i + 1;
    }
    assert(ws@.take(i as int) =~= ws@);
    total
}

fn push_day_cell(s: &mut String, w: &ContributionWeek, d: usize, cutoff: &Vec<char>)
    ensures
        final(s)@ == old(s)@ + day_cell(*w, d as int, cutoff@),
{
    if d < w.days.len() && day_in_range(&w.days[d], cutoff) {
        let c = level_palette(contribution_level(w.days[d].count));
        push_bg_cell(s, c);
    } else {
        push_bg_cell(s, Gruvbox::BG);
    }
}

fn push_header_total(s: &mut String, total: u32)
    ensures
        final(s)@ == old(s)@ + header_total(total as nat),
{
    let ghost start = s@;
    push_fg_gruv(s, Gruvbox::YELLOW);
    push_dec(s, total as u128);
    push_str(s, " contribuciones");
    push_reset(s);
    push_fg_gruv(s, Gruvbox::FG3);
    push_char(s, ' ');
    push_char(s, ' ');
    assert(s@ =~= start + header_total(total as nat));
}

fn push_header_legend(s: &mut String)
    ensures
        final(s)@ == old(s)@ + header_legend(),
{
    let ghost start = s@;
    push_fg_gruv(s, Gruvbox::BG3);
    push_str(s, "Menos");
    push_reset(s);
    let ghost a = s@;
    push_bg_cell(s, Gruvbox::BG1);
    push_bg_cell(s, Gruvbox::GREEN);
    push_bg_cell(s, Gruvbox::YELLOW);
    push_bg_cell(s, Gruvbox::ORANGE);
    let ghost b = s@;
    push_char(s, ' ');
    push_char(s, ' ');
    push_fg_gruv(s, Gruvbox::BG3);
    push_reset(s);
    push_str(s, "Mas");
    push_fg_gruv(s, Gruvbox::BG3);
    assert(s@ =~= start + header_legend());
}

fn push_header(s: &mut String, total: u32)
    ensures
        final(s)@ == old(s)@ + graph_header(total as nat),
{
    let ghost start = s@;
    push_header_total(s, total);
    push_header_legend(s);
    assert(s@ =~= start + graph_header(total as nat));
}

/// The graph of the contributions on or after `year_start` (a date
/// `YYYY-MM-DD`), as a newline-separated block of text.
pub fn render_graph_since(data: &ContributionData, year_start: &str) -> (out: String)
    requires
        range_total(data.weeks@, year_start@) <= u32::MAX,
    ensures
        out@ == graph_text(data.weeks@, year_start@),
{
    let weeks = &data.weeks;
    let mut output = String::new();
    if weeks.len() == 0 {
        assert(shown_weeks(weeks@, year_start@) =~= Seq::<ContributionWeek>::empty());
        return output;
    }
    let cutoff = chars_of(year_start);
    let idx = shown_indices(weeks, &cutoff);
    if idx.len() == 0 {
        return output;
    }
    let ghost shown = shown_weeks(weeks@, cutoff@);
    let total = total_in_range(weeks, &cutoff);
    push_header(&mut output, total);
    push_char(&mut output, '\n');
    push_char(&mut output, '\n');
    let ghost head = graph_header(total as nat) + seq!['\n', '\n'];
    assert(output@ =~= head + graph_rows(shown, cutoff@, 0));
    let mut d: usize = 0;
    while d < 7
        invariant
            d <= 7,
            shown == Seq::new(idx@.len(), |k: int| weeks@[idx@[k] as int]),
            forall|k: int| 0 <= k < idx@.len() ==> idx@[k] < weeks@.len(),
            output@ == head + graph_rows(shown, cutoff@, d as nat),
        decreases 7 - d,
    {
        let ghost row_start = output@;
        push_char(&mut output, ' ');
        push_char(&mut output, ' ');
        let mut k: usize = 0;
        while k < idx.len()
            invariant
                k <= idx@.len(),
                shown == Seq::new(idx@.len(), |k: int| weeks@[idx@[k] as int]),
                forall|k: int| 0 <= k < idx@.len() ==> idx@[k] < weeks@.len(),
                output@ == row_start + seq![' ', ' '] + row_cells(
                    shown.take(k as int),
                    d as int,
                    cutoff@,
                ),
            decreases idx@.len() - k,
        {
            assert(shown.take(k + 1).drop_last() =~= shown.take(k as int));
            assert(shown.take(k + 1).last() == weeks@[idx@[k as int] as int]);
            push_day_cell(&mut output, &weeks[idx[k]], d, &cutoff);
            k = k + 1;
        }
        assert(shown.take(k as int) =~= shown);
        push_char(&mut output, '\n');
        assert(output@ =~= head + graph_rows(shown, cutoff@, (d + 1) as nat));
        d = d + 1;
    }
    output
}

/// The text that chrono's `%Y` gives for a year: four digits for the years
/// 0 to 9999, otherwise a sign followed by at least four and at most six
/// digits (chrono's years run from -262144 to 262143).
pub open spec fn is_year_text(y: Seq<char>) -> bool {
    ||| (y.len() == 4 && all_digits(y))
    ||| (5 <= y.len() <= 7 && (y[0] == '+' || y[0] == '-') && all_digits(y.skip(1)))
}

/// `chrono::Local::now().format("%Y")`: the current local year, which
/// chrono writes zero-padded to four digits, with a sign outside 0 to 9999.
/// Which year it is depends on the clock, so only its form is stated.
#[verifier::external_body]
fn current_year() -> (y: String)
    ensures
        is_year_text(y@),
{
    chrono::Local::now().format("%Y").to_string()
}

/// The first day of year `year`: `<year>-01-01`.
pub fn year_start_of(year: &str) -> (s: String)
    ensures
        s@ == year_start(year@),
{
    let mut s = String::from_str(year);
    push_str(&mut s, "-01-01");
    s
}

/// The first day of the current year, `YYYY-01-01`.
pub fn current_year_start() -> (s: String)
    ensures
        exists|y: Seq<char>| is_year_text(y) && s@ == year_start(y),
{
    let y = current_year();
    year_start_of(y.as_str())
}

/// Whether the total of the days on or after `cutoff` fits a `u32`.
pub fn total_fits(ws: &Vec<ContributionWeek>, cutoff: &Vec<char>) -> (r: bool)
    ensures
        r == (range_total(ws@, cutoff@) <= u32::MAX),
{
    let mut acc: u64 = 0;
    let mut i: usize = 0;
    while i < ws.len()
        invariant
            i <= ws@.len(),
            acc == range_total(ws@.take(i as int), cutoff@),
            acc <= u32::MAX,
        decreases ws@.len() - i,
    {
        let days = &ws[i].days;
        let ghost base = acc as nat;
        assert(ws@.take(i + 1).drop_last() =~= ws@.take(i as int));
        let mut j: usize = 0;
        while j < days.len()
            invariant
                i < ws@.len(),
                days@ == ws@[i as int].days@,
                j <= days@.len(),
                base == range_total(ws@.take(i as int), cutoff@),
                acc == base + days_total(days@.take(j as int), cutoff@),
                acc <= u32::MAX,
            decreases days@.len() - j,
        {
            assert(days@.take(j + 1).drop_last() =~= days@.take(j as int));
            if day_in_range(&days[j], cutoff) {
                acc = acc + days[j].count as u64;
                if acc > 0xffff_ffff {
                    proof {
                        lemma_days_total_prefix(days@, cutoff@, j + 1);
                        lemma_range_total_prefix(ws@, cutoff@, i + 1);
                        assert(days@.take(j + 1).last() == days@[j as int]);
                        assert(acc == base + days_total(days@.take(j + 1), cutoff@));
                        assert(ws@.take(i + 1).last() == ws@[i as int]);
                        assert(ws@.take(i + 1).drop_last() =~= ws@.take(i as int));
                        assert(range_total(ws@.take(i + 1), cutoff@) == base + days_total(
                            days@,
                            cutoff@,
                        ));
                    }
                    return false;
                }
            }
            j = j + 1;
        }
        assert(days@.take(j as int) =~= days@);
        assert(ws@.take(i + 1).last() == ws@[i as int]);
        i = i + 1;
    }
    assert(ws@.take(i as int) =~= ws@);
    true
}

/// The graph of this year's contributions; `None` when this year's total
/// does not fit the `u32` that counts it.
pub fn render_graph(data: &ContributionData, _max_weeks: usize) -> (out: Option<String>)
    ensures
        exists|y: Seq<char>|
            is_year_text(y) && match out {
                Some(g) => range_total(data.weeks@, year_start(y)) <= u32::MAX && g@ == graph_text(
                    data.weeks@,
                    year_start(y),
                ),
                None => range_total(data.weeks@, year_start(y)) > u32::MAX,
            },
{
    let start = current_year_start();
    let ghost y = choose|y: Seq<char>| is_year_text(y) && start@ == year_start(y);
    let cutoff = chars_of(start.as_str());
    if total_fits(&data.weeks, &cutoff) {
        let g = render_graph_since(data, start.as_str());
        assert(is_year_text(y));
        Some(g)
    } else {
        None
    }
}

} // verus!
