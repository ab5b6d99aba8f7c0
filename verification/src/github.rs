//! GitHub data: the profile, the contribution calendar, and the parsers
//! that turn GitHub's answers into them.
use vstd::prelude::*;

use crate::text::{
    chars_of, contains, find_chars, find_from, lines, parse_unsigned, parse_unsigned_chars,
    push_str, slice_chars, split_lines, string_of, trim, trim_chars, views,
};

verus! {

/// A GitHub user profile.
pub struct GitHubProfile {
    pub login: String,
    pub name: Option<String>,
    pub bio: Option<String>,
    pub avatar_url: String,
    pub followers: u64,
    pub following: u64,
    pub public_repos: u64,
}

/// One day of the contribution calendar; `date` is `YYYY-MM-DD`.
pub struct ContributionDay {
    pub count: u32,
    pub color: String,
    pub date: String,
}

/// One week (column) of the contribution calendar.
pub struct ContributionWeek {
    pub days: Vec<ContributionDay>,
}

/// The contribution calendar.
pub struct ContributionData {
    pub weeks: Vec<ContributionWeek>,
    pub total: u32,
}

// ---------------------------------------------------------------------------
// The contribution page
// ---------------------------------------------------------------------------
/// The value of attribute `attr` in `line`: what stands between `attr="`
/// (its first occurrence) and the next `"`.
pub open spec fn attr_value(line: Seq<char>, attr: Seq<char>) -> Option<Seq<char>> {
    let pat = attr + seq!['=', '"'];
    match find_from(line, pat, 0) {
        Some(k) => {
            let st = k + pat.len();
            match find_from(line, seq!['"'], st) {
                Some(e) => Some(line.subrange(st, e)),
                None => None,
            }
        },
        None => None,
    }
}

/// The index of the last `'-'` in `s`.
pub open spec fn last_dash(s: Seq<char>) -> Option<int>
    decreases s.len(),
{
    if s.len() == 0 {
        None
    } else if s.last() == '-' {
        Some(s.len() - 1)
    } else {
        last_dash(s.drop_last())
    }
}

/// The first piece of `rsplitn(3, '-')`: what follows the last `'-'`, or
/// all of `s`.
pub open spec fn id_last_piece(s: Seq<char>) -> Seq<char> {
    match last_dash(s) {
        Some(k) => s.skip(k + 1),
        None => s,
    }
}

/// The second piece of `rsplitn(3, '-')`, if there is one: what stands
/// between the last two `'-'`, or before the last one when it is the only one.
pub open spec fn id_second_piece(s: Seq<char>) -> Option<Seq<char>> {
    match last_dash(s) {
        Some(k) => {
            let pre = s.take(k);
            match last_dash(pre) {
                Some(k2) => Some(pre.skip(k2 + 1)),
                None => Some(pre),
            }
        },
        None => None,
    }
}

/// A number read as `usize`, 0 when it does not read.
pub open spec fn usize_or_zero(s: Option<Seq<char>>) -> nat {
    match s {
        Some(t) => match parse_unsigned(t, usize::MAX as nat) {
            Some(v) => v,
            None => 0,
        },
        None => 0,
    }
}

/// The count that stands for a `data-level`: levels 0 to 4 become 0, 3, 8,
/// 17 and 130; a missing or unknown level becomes 0.
pub open spec fn level_count(level: Option<Seq<char>>) -> u32 {
    match level {
        Some(l) => if l == seq!['1'] {
            3
        } else if l == seq!['2'] {
            8
        } else if l == seq!['3'] {
            17
        } else if l == seq!['4'] {
            130
        } else {
            0
        },
        None => 0,
    }
}

/// A day as plain values: count, colour, date.
pub type DayModel = (u32, Seq<char>, Seq<char>);

/// One calendar cell read from a line of the page: row, column, and the day.
pub open spec fn cell_of(line: Seq<char>) -> (nat, nat, DayModel) {
    let id = match attr_value(line, "id"@) {
        Some(v) => v,
        None => Seq::empty(),
    };
    let date = match attr_value(line, "data-date"@) {
        Some(v) => v,
        None => Seq::empty(),
    };
    (
        usize_or_zero(id_second_piece(id)),
        usize_or_zero(Some(id_last_piece(id))),
        (level_count(attr_value(line, "data-level"@)), Seq::empty(), date),
    )
}

/// The cells of the lines that mention `data-level`, in order.
pub open spec fn cells_of(ls: Seq<Seq<char>>) -> Seq<(nat, nat, DayModel)>
    decreases ls.len(),
{
    if ls.len() == 0 {
        Seq::empty()
    } else if contains(ls.last(), "data-level"@) {
        cells_of(ls.drop_last()).push(cell_of(ls.last()))
    } else {
        cells_of(ls.drop_last())
    }
}

/// The day that fills a gap in a column.
pub open spec fn blank_day() -> DayModel {
    (0, Seq::empty(), Seq::empty())
}

/// Column `c` after placing `cells` in order: each cell first lengthens its
/// column with blank days until its row exists, then takes that row.
pub open spec fn column(cells: Seq<(nat, nat, DayModel)>, c: nat) -> Seq<DayModel>
    decreases cells.len(),
{
    if cells.len() == 0 {
        Seq::empty()
    } else {
        let prev = column(cells.drop_last(), c);
        let (row, col, day) = cells.last();
        if col == c {
            let grown = if prev.len() > row {
                prev
            } else {
                prev + Seq::new((row + 1 - prev.len()) as nat, |i: int| blank_day())
            };
            grown.update(row as int, day)
        } else {
            prev
        }
    }
}

/// The largest column of the cells.
pub open spec fn max_column(cells: Seq<(nat, nat, DayModel)>) -> nat
    decreases cells.len(),
{
    if cells.len() == 0 {
        0
    } else {
        let m = max_column(cells.drop_last());
        if cells.last().1 > m {
            cells.last().1
        } else {
            m
        }
    }
}

/// The non-empty columns among the first `n`, left to right.
pub open spec fn nonempty_columns(cells: Seq<(nat, nat, DayModel)>, n: nat) -> Seq<
    Seq<DayModel>,
>
    decreases n,
{
    if n == 0 {
        Seq::empty()
    } else {
        let prev = nonempty_columns(cells, (n - 1) as nat);
        if column(cells, (n - 1) as nat).len() > 0 {
            prev.push(column(cells, (n - 1) as nat))
        } else {
            prev
        }
    }
}

/// Law: every week read from the page has at least one day.
pub proof fn law_page_weeks_nonempty(cells: Seq<(nat, nat, DayModel)>, n: nat)
    ensures
        forall|i: int|
            0 <= i < nonempty_columns(cells, n).len() ==> #[trigger] nonempty_columns(
                cells,
                n,
            )[i].len() > 0,
    decreases n,
{
    if n > 0 {
        law_page_weeks_nonempty(cells, (n - 1) as nat);
        let prev = nonempty_columns(cells, (n - 1) as nat);
        assert forall|i: int| 0 <= i < nonempty_columns(cells, n).len() implies #[trigger]
            nonempty_columns(cells, n)[i].len() > 0 by {
            if i < prev.len() {
                assert(nonempty_columns(cells, n)[i] == prev[i]);
            }
        }
    }
}

/// The weeks as plain values.
pub open spec fn weeks_model(ws: Seq<ContributionWeek>) -> Seq<Seq<DayModel>> {
    Seq::new(
        ws.len(),
        |i: int| Seq::new(ws[i].days@.len(), |j: int| day_model(ws[i].days@[j])),
    )
}

/// A day as plain values.
pub open spec fn day_model(d: ContributionDay) -> DayModel {
    (d.count, d.color@, d.date@)
}

/// The index of the last line, scanning from the end, whose trimmed text
/// reads as a `u32`, with that number.
pub open spec fn last_number(ls: Seq<Seq<char>>) -> Option<nat>
    decreases ls.len(),
{
    if ls.len() == 0 {
        None
    } else {
        match parse_unsigned(trim(ls.last()), u32::MAX as nat) {
            Some(n) => Some(n),
            None => last_number(ls.drop_last()),
        }
    }
}

/// The yearly total on the contribution page: the last number standing on
/// a line of its own before the first "in the last year".
pub open spec fn page_total(html: Seq<char>) -> Option<nat> {
    match find_from(html, "in the last year"@, 0) {
        Some(pos) => last_number(lines(html.take(pos))),
        None => None,
    }
}

/// The calendar table: from the first `<table` through the first
/// `</table>` after it.
pub open spec fn page_table(html: Seq<char>) -> Option<Seq<char>> {
    match find_from(html, "<table"@, 0) {
        Some(ts) => match find_from(html, "</table>"@, ts) {
            Some(te) => Some(html.subrange(ts, te + 8)),
            None => None,
        },
        None => None,
    }
}

/// The cells of the calendar table, if the page has one.
pub open spec fn page_cells(html: Seq<char>) -> Seq<(nat, nat, DayModel)> {
    match page_table(html) {
        Some(t) => cells_of(lines(t)),
        None => Seq::empty(),
    }
}

/// Law: the calendar is read from the first table alone: whatever follows
/// the page (legend squares, other tables) changes neither the table, nor
/// the cells read from it, nor the weeks built from them, once the first
/// table is closed.
pub proof fn law_cells_end_at_table(html: Seq<char>, after: Seq<char>)
    requires
        page_table(html) is Some,
    ensures
        page_table(html + after) == page_table(html),
        page_cells(html + after) == page_cells(html),
        page_weeks(html + after) == page_weeks(html),
{
    reveal_strlit("</table>");
    let ts = find_from(html, "<table"@, 0)->0;
    crate::text::lemma_find_from_extend(html, after, "<table"@, 0);
    crate::text::lemma_find_from_extend(html, after, "</table>"@, ts);
    lemma_find_literal_bounds(html, "</table>"@, ts);
    lemma_find_literal_bounds(html, "<table"@, 0);
    let te = find_from(html, "</table>"@, ts)->0;
    assert((html + after).subrange(ts, te + 8) =~= html.subrange(ts, te + 8));
}

/// Every cell's column and row is below `usize::MAX`, so that the columns
/// can be counted and each row can exist.
pub open spec fn cells_fit(html: Seq<char>) -> bool {
    forall|k: int|
        0 <= k < page_cells(html).len() ==> #[trigger] page_cells(html)[k].1 < usize::MAX
            && page_cells(html)[k].0 < usize::MAX
}

proof fn lemma_find_literal_bounds(s: Seq<char>, pat: Seq<char>, i: int)
    requires
        find_from(s, pat, i) is Some,
    ensures
        0 <= i <= find_from(s, pat, i)->0,
        find_from(s, pat, i)->0 + pat.len() <= s.len(),
{
    crate::text::lemma_find_from_found(s, pat, i);
}

/// The value of attribute `attr` in `line`.
pub fn extract_attr(line: &str, attr: &str) -> (r: Option<String>)
    ensures
        r matches Some(v) ==> attr_value(line@, attr@) == Some(v@),
        r is None ==> attr_value(line@, attr@) is None,
{
    let v = chars_of(line);
    match attr_in_chars(&v, attr) {
        Some(a) => Some(string_of(a.as_slice())),
        None => None,
    }
}

fn attr_in_chars(line: &Vec<char>, attr: &str) -> (r: Option<Vec<char>>)
    ensures
        r matches Some(v) ==> attr_value(line@, attr@) == Some(v@),
        r is None ==> attr_value(line@, attr@) is None,
{
    let mut pat = chars_of(attr);
    pat.push('=');
    pat.push('"');
    assert(pat@ =~= attr@ + seq!['=', '"']);
    match find_chars(line.as_slice(), pat.as_slice(), 0) {
        Some(k) => {
            proof {
                lemma_find_literal_bounds(line@, pat@, 0);
            }
            assert(k + pat@.len() <= line@.len());
            assert(line@.len() == line.len());
            let st = k + pat.len();
            let quote = vec!['"'];
            assert(quote@ =~= seq!['"']);
            match find_chars(line.as_slice(), quote.as_slice(), st) {
                Some(e) => {
                    proof {
                        lemma_find_literal_bounds(line@, quote@, st as int);
                    }
                    assert(st <= e && e + 1 <= line@.len());
                    Some(slice_chars(line.as_slice(), st, e))
                },
                None => None,
            }
        },
        None => None,
    }
}

fn last_dash_exec(s: &[char], n: usize) -> (r: Option<usize>)
    requires
        n <= s@.len(),
    ensures
        r matches Some(k) ==> last_dash(s@.take(n as int)) == Some(k as int) && k < n,
        r is None ==> last_dash(s@.take(n as int)) is None,
{
    let mut i = n;
    while i > 0 && s[i - 1] != '-'
        invariant
            i <= n <= s@.len(),
            last_dash(s@.take(n as int)) == last_dash(s@.take(i as int)),
        decreases i,
    {
        assert(s@.take(i as int).drop_last() =~= s@.take(i - 1));
        i = i - 1;
    }
    if i == 0 {
        assert(s@.take(0).len() == 0);
        None
    } else {
        Some(i - 1)
    }
}

fn parse_usize_or_zero(s: &[char]) -> (v: usize)
    ensures
        v == usize_or_zero(Some(s@)),
{
    match parse_unsigned_chars(s, usize::MAX as u64) {
        Some(v) => v as usize,
        None => 0,
    }
}

fn is_level(l: &Vec<char>, c: char) -> (r: bool)
    ensures
        r == (l@ == seq![c]),
{
    if l.len() == 1 && l[0] == c {
        assert(l@ =~= seq![c]);
        true
    } else {
        false
    }
}

fn count_of_level(level: &Option<Vec<char>>) -> (c: u32)
    ensures
        c == level_count(match level {
            Some(l) => Some(l@),
            None => None,
        }),
{
    match level {
        Some(l) => {
            if is_level(l, '1') {
                3
            } else if is_level(l, '2') {
                8
            } else if is_level(l, '3') {
                17
            } else if is_level(l, '4') {
                130
            } else {
                0
            }
        },
        None => 0,
    }
}

/// The cell that a line of the calendar describes.
fn cell_from_line(line: &Vec<char>) -> (r: (usize, usize, ContributionDay))
    ensures
        (r.0 as nat, r.1 as nat, day_model(r.2)) == cell_of(line@),
{
    let level = attr_in_chars(line, "data-level");
    let date = match attr_in_chars(line, "data-date") {
        Some(d) => d,
        None => Vec::new(),
    };
    let id = match attr_in_chars(line, "id") {
        Some(v) => v,
        None => Vec::new(),
    };
    let n = id.len();
    assert(id@.take(n as int) =~= id@);
    let (row, col) = match last_dash_exec(id.as_slice(), n) {
        Some(k) => {
            assert(id@.skip(k + 1) =~= id@.subrange(k + 1, n as int));
            let col = parse_usize_or_zero(slice_chars(id.as_slice(), k + 1, n).as_slice());
            assert(id@.take(k as int).take(k as int) =~= id@.take(k as int));
            let row = match last_dash_exec(id.as_slice(), k) {
                Some(k2) => {
                    assert(id@.take(k as int).take(k as int) =~= id@.take(k as int));
                    assert(id@.take(k as int).skip(k2 + 1) =~= id@.subrange(k2 + 1, k as int));
                    parse_usize_or_zero(slice_chars(id.as_slice(), k2 + 1, k).as_slice())
                },
                None => {
                    assert(id@.take(k as int) =~= id@.subrange(0, k as int));
                    parse_usize_or_zero(slice_chars(id.as_slice(), 0, k).as_slice())
                },
            };
            (row, col)
        },
        None => (0, parse_usize_or_zero(id.as_slice())),
    };
    let count = count_of_level(&level);
    let day = ContributionDay { count, color: String::new(), date: string_of(date.as_slice()) };
    (row, col, day)
}

fn blank() -> (d: ContributionDay)
    ensures
        day_model(d) == blank_day(),
{
    ContributionDay { count: 0, color: String::new(), date: String::new() }
}

fn copy_day(d: &ContributionDay) -> (r: ContributionDay)
    ensures
        day_model(r) == day_model(*d),
{
    ContributionDay { count: d.count, color: d.color.clone(), date: d.date.clone() }
}

/// The views of the cells found so far.
pub open spec fn cell_models(cs: Seq<(usize, usize, ContributionDay)>) -> Seq<
    (nat, nat, DayModel),
> {
    Seq::new(cs.len(), |k: int| (cs[k].0 as nat, cs[k].1 as nat, day_model(cs[k].2)))
}

/// The view of a column under construction.
pub open spec fn days_model(ds: Seq<ContributionDay>) -> Seq<DayModel> {
    Seq::new(ds.len(), |j: int| day_model(ds[j]))
}

fn collect_cells(ls: &Vec<Vec<char>>) -> (r: (Vec<(usize, usize, ContributionDay)>, usize))
    ensures
        cell_models(r.0@) == cells_of(views(ls@)),
        r.1 == max_column(cells_of(views(ls@))),
{
    let mut cells: Vec<(usize, usize, ContributionDay)> = Vec::new();
    let mut max_col: usize = 0;
    let mut i: usize = 0;
    let level_key = chars_of("data-level");
    while i < ls.len()
        invariant
            i <= ls@.len(),
            level_key@ == "data-level"@,
            cell_models(cells@) == cells_of(views(ls@).take(i as int)),
            max_col == max_column(cells_of(views(ls@).take(i as int))),
        decreases ls@.len() - i,
    {
        let ghost before = cell_models(cells@);
        assert(views(ls@).take(i + 1).drop_last() =~= views(ls@).take(i as int));
        assert(views(ls@).take(i + 1).last() == ls@[i as int]@);
        if find_chars(ls[i].as_slice(), level_key.as_slice(), 0).is_some() {
            assert(contains(ls@[i as int]@, "data-level"@));
            let cell = cell_from_line(&ls[i]);
            assert(cells_of(views(ls@).take(i + 1)) == cells_of(views(ls@).take(i as int)).push(
                cell_of(ls@[i as int]@),
            ));
            if cell.1 > max_col {
                max_col = cell.1;
            }
            cells.push(cell);
            assert(cell_models(cells@) =~= before.push(cell_of(ls@[i as int]@)));
            assert(cells_of(views(ls@).take(i + 1)).drop_last() =~= cells_of(
                views(ls@).take(i as int),
            ));
        } else {
            assert(!contains(ls@[i as int]@, "data-level"@));
        }
        i = i + 1;
    }
    assert(views(ls@).take(i as int) =~= views(ls@));
    (cells, max_col)
}

proof fn lemma_max_column(cells: Seq<(nat, nat, DayModel)>)
    ensures
        forall|k: int| 0 <= k < cells.len() ==> #[trigger] cells[k].1 <= max_column(cells),
        cells.len() > 0 ==> exists|k: int| 0 <= k < cells.len() && #[trigger] cells[k].1
            == max_column(cells),
    decreases cells.len(),
{
    if cells.len() > 0 {
        lemma_max_column(cells.drop_last());
        if cells.last().1 > max_column(cells.drop_last()) || cells.len() == 1 {
            assert(cells[cells.len() - 1].1 == max_column(cells));
        } else {
            let k = choose|k: int| 0 <= k < cells.len() - 1 && #[trigger] cells.drop_last()[k].1
                == max_column(cells.drop_last());
            assert(cells[k] == cells.drop_last()[k]);
            assert(cells[k].1 == max_column(cells));
        }
        assert forall|k: int| 0 <= k < cells.len() implies #[trigger] cells[k].1 <= max_column(
            cells,
        ) by {
            if k < cells.len() - 1 {
                assert(cells[k] == cells.drop_last()[k]);
            }
        }
    }
}

proof fn lemma_column_beyond(cells: Seq<(nat, nat, DayModel)>, c: nat)
    requires
        forall|k: int| 0 <= k < cells.len() ==> #[trigger] cells[k].1 != c,
    ensures
        column(cells, c).len() == 0,
    decreases cells.len(),
{
    if cells.len() > 0 {
        assert forall|k: int| 0 <= k < cells.len() - 1 implies #[trigger] cells.drop_last()[k].1
            != c by {
            assert(cells.drop_last()[k] == cells[k]);
        }
        lemma_column_beyond(cells.drop_last(), c);
    }
}

/// Places the cells into columns, in order.
fn place_cells(cells: &Vec<(usize, usize, ContributionDay)>, num_cols: usize) -> (cols: Vec<
    Vec<ContributionDay>,
>)
    requires
        forall|k: int| 0 <= k < cells@.len() ==> #[trigger] cells@[k].1 < num_cols,
        forall|k: int| 0 <= k < cells@.len() ==> #[trigger] cells@[k].0 < usize::MAX,
    ensures
        cols@.len() == num_cols,
        forall|c: int|
            0 <= c < num_cols ==> days_model(#[trigger] cols@[c]@) == column(
                cell_models(cells@),
                c as nat,
            ),
{
    let mut cols: Vec<Vec<ContributionDay>> = Vec::new();
    let mut c: usize = 0;
    while c < num_cols
        invariant
            c <= num_cols,
            cols@.len() == c,
            forall|j: int| 0 <= j < c ==> (#[trigger] cols@[j])@.len() == 0,
        decreases num_cols - c,
    {
        cols.push(Vec::new());
        c = c + 1;
    }
    let ghost all = cell_models(cells@);
    let mut k: usize = 0;
    while k < cells.len()
        invariant
            k <= cells@.len(),
            all == cell_models(cells@),
            cols@.len() == num_cols,
            forall|t: int| 0 <= t < cells@.len() ==> #[trigger] cells@[t].1 < num_cols,
            forall|t: int| 0 <= t < cells@.len() ==> #[trigger] cells@[t].0 < usize::MAX,
            forall|j: int|
                0 <= j < num_cols ==> days_model(#[trigger] cols@[j]@) == column(
                    all.take(k as int),
                    j as nat,
                ),
        decreases cells@.len() - k,
    {
        let row = cells[k].0;
        let col = cells[k].1;
        assert(all.take(k + 1).drop_last() =~= all.take(k as int));
        assert(all.take(k + 1).last() == all[k as int]);
        let ghost prev = days_model(cols@[col as int]@);
        let ghost others = cols@;
        while cols[col].len() <= row
            invariant
                cols@.len() == num_cols,
                col < num_cols,
                row < usize::MAX,
                prev.len() <= cols@[col as int]@.len(),
                others.len() == num_cols,
                forall|j: int| 0 <= j < num_cols && j != col ==> #[trigger] cols@[j] == others[j],
                prev.len() > row ==> days_model(cols@[col as int]@) == prev,
                prev.len() <= row ==> days_model(cols@[col as int]@) =~= prev + Seq::new(
                    (cols@[col as int]@.len() - prev.len()) as nat,
                    |i: int| blank_day(),
                ),
                prev.len() <= row ==> cols@[col as int]@.len() <= row + 1,
                prev.len() > row ==> cols@[col as int]@.len() == prev.len(),
            decreases row + 1 - cols@[col as int]@.len(),
        {
            let ghost before = days_model(cols@[col as int]@);
            cols[col].push(blank());
            assert(days_model(cols@[col as int]@) =~= before.push(blank_day()));
        }
        let day = copy_day(&cells[k].2);
        let ghost grown = days_model(cols@[col as int]@);
        cols[col].set(row, day);
        assert(days_model(cols@[col as int]@) =~= grown.update(row as int, all[k as int].2));
        assert forall|j: int| 0 <= j < num_cols implies days_model(#[trigger] cols@[j]@)
            == column(all.take(k + 1), j as nat) by {
            if j != col {
                assert(cols@[j] == others[j]);
            }
        }
        k = k + 1;
    }
    assert(all.take(k as int) =~= all);
    cols
}

/// The total that the contribution page states.
pub fn extract_total_from_html(html: &str) -> (r: Option<u32>)
    ensures
        r matches Some(n) ==> page_total(html@) == Some(n as nat),
        r is None ==> page_total(html@) is None,
{
    let h = chars_of(html);
    total_in_chars(&h)
}

fn total_in_chars(html: &Vec<char>) -> (r: Option<u32>)
    ensures
        r matches Some(n) ==> page_total(html@) == Some(n as nat),
        r is None ==> page_total(html@) is None,
{
    let key = chars_of("in the last year");
    let pos = match find_chars(html.as_slice(), key.as_slice(), 0) {
        Some(p) => p,
        None => return None,
    };
    proof {
        lemma_find_literal_bounds(html@, key@, 0);
    }
    let before = slice_chars(html.as_slice(), 0, pos);
    assert(before@ =~= html@.take(pos as int));
    let ls = split_lines(before.as_slice());
    assert(page_total(html@) == last_number(views(ls@)));
    let mut i = ls.len();
    assert(views(ls@).take(i as int) =~= views(ls@));
    while i > 0
        invariant
            i <= ls@.len(),
            page_total(html@) == last_number(views(ls@)),
            last_number(views(ls@)) == last_number(views(ls@).take(i as int)),
        decreases i,
    {
        assert(views(ls@).take(i as int).drop_last() =~= views(ls@).take(i - 1));
        assert(views(ls@).take(i as int).last() == ls@[i - 1]@);
        let line = trim_chars(ls[i - 1].as_slice());
        match parse_unsigned_chars(line.as_slice(), u32::MAX as u64) {
            Some(n) => {
                assert(n <= u32::MAX);
                assert(last_number(views(ls@).take(i as int)) == Some(n as nat));
                return Some(n as u32);
            },
            None => {},
        }
        i = i - 1;
    }
    None
}

/// The weeks as plain values, from the non-empty columns.
pub open spec fn page_weeks(html: Seq<char>) -> Seq<Seq<DayModel>> {
    let cells = page_cells(html);
    nonempty_columns(cells, max_column(cells) + 1)
}

/// Reads the contribution calendar from GitHub's contribution page: the
/// cells of the first table, placed by the row and column in their `id`,
/// with the count that their `data-level` stands for; `None` when the page
/// has no table or the table no cell.
pub fn parse_contributions_html(html: &str) -> (r: Option<ContributionData>)
    requires
        cells_fit(html@),
    ensures
        r is None <==> page_cells(html@).len() == 0,
        r matches Some(d) ==> weeks_model(d.weeks@) == page_weeks(html@) && d.total == (
        match page_total(html@) {
            Some(n) => n,
            None => 0,
        }),
{
    let h = chars_of(html);
    let open = chars_of("<table");
    let ts = match find_chars(h.as_slice(), open.as_slice(), 0) {
        Some(t) => t,
        None => return None,
    };
    let close = chars_of("</table>");
    let te = match find_chars(h.as_slice(), close.as_slice(), ts) {
        Some(t) => t,
        None => return None,
    };
    proof {
        lemma_find_literal_bounds(h@, open@, 0);
        lemma_find_literal_bounds(h@, close@, ts as int);
    }
    proof {
        reveal_strlit("</table>");
    }
    assert(close@.len() == 8);
    assert(ts <= te && te + 8 <= h@.len());
    assert(h@.len() == h.len());
    let table = slice_chars(h.as_slice(), ts, te + 8);
    let total = match total_in_chars(&h) {
        Some(n) => n,
        None => 0,
    };
    let ls = split_lines(table.as_slice());
    let (cells, max_col) = collect_cells(&ls);
    let ghost models = cell_models(cells@);
    if cells.len() == 0 {
        return None;
    }
    assert(page_table(html@) == Some(table@));
    assert(models == page_cells(html@));
    proof {
        lemma_max_column(models);
        assert forall|k: int| 0 <= k < cells@.len() implies #[trigger] cells@[k].1 < usize::MAX
            && cells@[k].0 < usize::MAX by {
            assert(models[k] == page_cells(html@)[k]);
            assert(page_cells(html@)[k].1 < usize::MAX);
        }
        let k0 = choose|k: int| 0 <= k < models.len() && #[trigger] models[k].1 == max_column(
            models,
        );
        assert(cells@[k0].1 < usize::MAX);
        assert forall|k: int| 0 <= k < cells@.len() implies #[trigger] cells@[k].0 < usize::MAX by {
            assert(cells@[k].1 < usize::MAX);
        }
        assert forall|k: int| 0 <= k < cells@.len() implies #[trigger] cells@[k].1 <= max_col by {
            assert(models[k].1 <= max_column(models));
        }
    }
    let num_cols = max_col + 1;
    let cols = place_cells(&cells, num_cols);
    let mut weeks: Vec<ContributionWeek> = Vec::new();
    let mut cols = cols;
    let mut c: usize = 0;
    while c < num_cols
        invariant
            c <= num_cols,
            num_cols == max_column(models) + 1,
            cols@.len() == num_cols,
            forall|j: int|
                c <= j < num_cols ==> days_model(#[trigger] cols@[j]@) == column(
                    models,
                    j as nat,
                ),
            weeks_model(weeks@) == nonempty_columns(models, c as nat),
        decreases num_cols - c,
    {
        let mut days: Vec<ContributionDay> = Vec::new();
        std::mem::swap(&mut days, &mut cols[c]);
        assert(days_model(days@) == column(models, c as nat));
        let ghost before = weeks_model(weeks@);
        if days.len() > 0 {
            weeks.push(ContributionWeek { days });
            assert(weeks_model(weeks@) =~= before.push(column(models, c as nat)));
        }
        c = c + 1;
    }
    Some(ContributionData { weeks, total })
}

/// Whether every cell of the page's calendar has a column and a row below
/// `usize::MAX`, which `parse_contributions_html` needs.
pub fn contributions_html_fits(html: &str) -> (r: bool)
    ensures
        r == cells_fit(html@),
{
    let h = chars_of(html);
    let open = chars_of("<table");
    let close = chars_of("</table>");
    proof {
        reveal_strlit("</table>");
    }
    let ts = match find_chars(h.as_slice(), open.as_slice(), 0) {
        Some(t) => t,
        None => {
            assert(page_cells(html@).len() == 0);
            return true;
        },
    };
    let te = match find_chars(h.as_slice(), close.as_slice(), ts) {
        Some(t) => t,
        None => {
            assert(page_cells(html@).len() == 0);
            return true;
        },
    };
    proof {
        lemma_find_literal_bounds(h@, open@, 0);
        lemma_find_literal_bounds(h@, close@, ts as int);
    }
    assert(h@.len() == h.len());
    let table = slice_chars(h.as_slice(), ts, te + 8);
    let ls = split_lines(table.as_slice());
    let (cells, _max) = collect_cells(&ls);
    let ghost models = cell_models(cells@);
    assert(page_table(html@) == Some(table@));
    assert(models == page_cells(html@));
    let mut k: usize = 0;
    while k < cells.len()
        invariant
            k <= cells@.len(),
            models == cell_models(cells@),
            models == page_cells(html@),
            forall|j: int| 0 <= j < k ==> #[trigger] models[j].1 < usize::MAX && models[j].0
                < usize::MAX,
        decreases cells@.len() - k,
    {
        assert(models[k as int].0 == cells@[k as int].0);
        assert(models[k as int].1 == cells@[k as int].1);
        if cells[k].0 == usize::MAX || cells[k].1 == usize::MAX {
            assert(!(page_cells(html@)[k as int].1 < usize::MAX && page_cells(html@)[k as int].0
                < usize::MAX));
            return false;
        }
        k = k + 1;
    }
    true
}

/// `Bearer <token>`.
pub open spec fn bearer(token: Seq<char>) -> Seq<char> {
    "Bearer "@ + token
}

/// The `Authorization` header for a token, none without one.
pub fn auth_header(token: &Option<String>) -> (r: Option<String>)
    ensures
        r is Some <==> token is Some,
        r matches Some(h) ==> h@ == bearer(token->0@),
{
    match token {
        Some(t) => {
            let mut h = String::from_str("Bearer ");
            push_str(&mut h, t.as_str());
            Some(h)
        },
        None => None,
    }
}

fn concat2(a: &str, b: &str) -> (r: String)
    ensures
        r@ == a@ + b@,
{
    let mut r = String::from_str(a);
    push_str(&mut r, b);
    r
}

/// The API address of a user's profile.
pub fn profile_url(username: &str) -> (r: String)
    ensures
        r@ == "https://api.github.com/users/"@ + username@,
{
    concat2("https://api.github.com/users/", username)
}

/// The cache key of a user's profile.
pub fn profile_cache_key(username: &str) -> (r: String)
    ensures
        r@ == "profile_"@ + username@,
{
    concat2("profile_", username)
}

/// Where the contribution calendar is looked for.
#[derive(Clone, Copy)]
pub enum ContributionSource {
    Cache,
    GraphQl,
    Page,
}

/// The next thing to do while looking for the calendar: ask a source, take
/// what the last one gave (keeping it in the cache when it did not come
/// from there), or give up.
pub enum FetchStep {
    Ask(ContributionSource),
    Found { store: bool },
    NotFound,
}

/// The order in which the calendar is looked for: the cache first; then,
/// with a token, the GraphQL API; then the contribution page. The first
/// source that gives a calendar ends the search.
pub open spec fn fetch_step(tried: Option<ContributionSource>, found: bool, has_token: bool) -> FetchStep {
    match tried {
        None => FetchStep::Ask(ContributionSource::Cache),
        Some(ContributionSource::Cache) => if found {
            FetchStep::Found { store: false }
        } else if has_token {
            FetchStep::Ask(ContributionSource::GraphQl)
        } else {
            FetchStep::Ask(ContributionSource::Page)
        },
        Some(ContributionSource::GraphQl) => if found {
            FetchStep::Found { store: true }
        } else {
            FetchStep::Ask(ContributionSource::Page)
        },
        Some(ContributionSource::Page) => if found {
            FetchStep::Found { store: true }
        } else {
            FetchStep::NotFound
        },
    }
}

/// What to do after asking `tried` (nothing yet when `None`), given whether
/// it gave a calendar and whether a token is configured.
pub fn next_fetch_step(tried: Option<ContributionSource>, found: bool, has_token: bool) -> (s:
    FetchStep)
    ensures
        s == fetch_step(tried, found, has_token),
{
    match tried {
        None => FetchStep::Ask(ContributionSource::Cache),
        Some(ContributionSource::Cache) => {
            if found {
                FetchStep::Found { store: false }
            } else if has_token {
                FetchStep::Ask(ContributionSource::GraphQl)
            } else {
                FetchStep::Ask(ContributionSource::Page)
            }
        },
        Some(ContributionSource::GraphQl) => {
            if found {
                FetchStep::Found { store: true }
            } else {
                FetchStep::Ask(ContributionSource::Page)
            }
        },
        Some(ContributionSource::Page) => {
            if found {
                FetchStep::Found { store: true }
            } else {
                FetchStep::NotFound
            }
        },
    }
}

/// Law: the search ends after at most three sources, each asked once, in
/// the order cache, GraphQL, page; the GraphQL API is asked only with a
/// token, and a calendar found anywhere is taken at once.
pub proof fn law_fetch_order(has_token: bool, f1: bool, f2: bool, f3: bool)
    ensures
        fetch_step(None, f1, has_token) == FetchStep::Ask(ContributionSource::Cache),
        f1 ==> fetch_step(Some(ContributionSource::Cache), f1, has_token) == (FetchStep::Found {
            store: false,
        }),
        !f1 && has_token ==> fetch_step(Some(ContributionSource::Cache), f1, has_token)
            == FetchStep::Ask(ContributionSource::GraphQl),
        !f1 && !has_token ==> fetch_step(Some(ContributionSource::Cache), f1, has_token)
            == FetchStep::Ask(ContributionSource::Page),
        !f2 ==> fetch_step(Some(ContributionSource::GraphQl), f2, has_token) == FetchStep::Ask(
            ContributionSource::Page,
        ),
        fetch_step(Some(ContributionSource::Page), f3, has_token) == (if f3 {
            FetchStep::Found { store: true }
        } else {
            FetchStep::NotFound
        }),
{
}

/// The cache key of a user's contribution calendar.
pub fn contributions_cache_key(username: &str) -> (r: String)
    ensures
        r@ == "contrib_"@ + username@,
{
    concat2("contrib_", username)
}

/// The address of a user's public contribution page.
pub fn contributions_page_url(username: &str) -> (r: String)
    ensures
        r@ == "https://github.com/users/"@ + username@ + "/contributions"@,
{
    let mut r = concat2("https://github.com/users/", username);
    push_str(&mut r, "/contributions");
    r
}

/// The GraphQL request body that asks for a user's contribution calendar;
/// the user name is put in as it is.
pub fn graphql_query(username: &str) -> (r: String)
    ensures
        r@ == "{\"query\":\"query { user(login: \\\""@ + username@
            + "\\\") { contributionsCollection { contributionCalendar { totalContributions weeks { contributionDays { contributionCount date color } } } } }\"}"@,
{
    let mut r = concat2("{\"query\":\"query { user(login: \\\"", username);
    push_str(
        &mut r,
        "\\\") { contributionsCollection { contributionCalendar { totalContributions weeks { contributionDays { contributionCount date color } } } } }\"}",
    );
    r
}

/// A day as the GraphQL API reports it.
pub struct CalendarDay {
    pub count: u64,
    pub color: String,
    pub date: String,
}

/// The calendar from the GraphQL API's days and total; counts and total
/// are kept in 32 bits, as `as u32` keeps them.
pub fn contributions_from_graphql(total: u64, weeks: Vec<Vec<CalendarDay>>) -> (r: ContributionData)
    ensures
        r.total == total as u32,
        r.weeks@.len() == weeks@.len(),
        forall|i: int|
            0 <= i < weeks@.len() ==> (#[trigger] r.weeks@[i]).days@.len() == weeks@[i]@.len(),
        forall|i: int, j: int|
            0 <= i < weeks@.len() && 0 <= j < weeks@[i]@.len() ==> {
                let d = #[trigger] r.weeks@[i].days@[j];
                let g = weeks@[i]@[j];
                d.count == g.count as u32 && d.color == g.color && d.date == g.date
            },
{
    let mut out: Vec<ContributionWeek> = Vec::new();
    let mut weeks = weeks;
    let ghost src = weeks@;
    let n = weeks.len();
    let mut i: usize = 0;
    while i < n
        invariant
            i <= n == weeks@.len() == src.len(),
            out@.len() == i,
            forall|t: int| 0 <= t < n ==> #[trigger] weeks@[t]@ == src[t]@ || t < i,
            forall|t: int| i <= t < n ==> #[trigger] weeks@[t] == src[t],
            forall|t: int| 0 <= t < i ==> (#[trigger] out@[t]).days@.len() == src[t]@.len(),
            forall|t: int, j: int|
                0 <= t < i && 0 <= j < src[t]@.len() ==> {
                    let d = #[trigger] out@[t].days@[j];
                    let g = src[t]@[j];
                    d.count == g.count as u32 && d.color == g.color && d.date == g.date
                },
        decreases n - i,
    {
        let mut days_in: Vec<CalendarDay> = Vec::new();
        std::mem::swap(&mut days_in, &mut weeks[i]);
        assert(days_in@ == src[i as int]@);
        let mut days: Vec<ContributionDay> = Vec::new();
        let m = days_in.len();
        let mut rest = days_in;
        let mut taken: Vec<ContributionDay> = Vec::new();
        while rest.len() > 0
            invariant
                m == src[i as int]@.len(),
                rest@.len() + taken@.len() == m,
                forall|k: int| 0 <= k < rest@.len() ==> #[trigger] rest@[k] == src[i as int]@[k],
                forall|k: int|
                    0 <= k < taken@.len() ==> {
                        let d = #[trigger] taken@[k];
                        let g = src[i as int]@[m - 1 - k];
                        d.count == g.count as u32 && d.color == g.color && d.date == g.date
                    },
            decreases rest@.len(),
        {
            let g = rest.pop().unwrap();
            taken.push(ContributionDay { count: g.count as u32, color: g.color, date: g.date });
        }
        while taken.len() > 0
            invariant
                m == src[i as int]@.len(),
                taken@.len() + days@.len() == m,
                forall|k: int|
                    0 <= k < taken@.len() ==> {
                        let d = #[trigger] taken@[k];
                        let g = src[i as int]@[m - 1 - k];
                        d.count == g.count as u32 && d.color == g.color && d.date == g.date
                    },
                forall|k: int|
                    0 <= k < days@.len() ==> {
                        let d = #[trigger] days@[k];
                        let g = src[i as int]@[k];
                        d.count == g.count as u32 && d.color == g.color && d.date == g.date
                    },
            decreases taken@.len(),
        {
            let d = taken.pop().unwrap();
            days.push(d);
        }
        out.push(ContributionWeek { days });
        i = i + 1;
    }
    ContributionData { weeks: out, total: total as u32 }
}

} // verus!
