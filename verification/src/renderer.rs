//! The layout engine: avatar on the left, system lines and the contribution
//! graph stacked on the right, every right-hand line cut to the room left.
use vstd::prelude::*;

use crate::avatar::{string_views, AvatarArt};
use crate::config::Config;
use crate::config::keys_unique;
use crate::contributions::{
    current_year_start, graph_text, is_year_text, range_total, render_graph_since, shown_weeks,
    total_fits, year_start,
};
use crate::github::ContributionData;
use crate::system::{bytes_text, SystemInfo};
use crate::text::{chars_of, lines, push_char, push_str, split_lines, str_eq, string_of, views};
use crate::theme::{
    colored_seq, esc, fg_gruv_seq, ghost_icon, icon_for, push_fg_gruv, push_reset, reset_seq,
    Gruvbox, Icons,
};

verus! {

// ---------------------------------------------------------------------------
// Visible text of a string with ANSI escape sequences
// ---------------------------------------------------------------------------
/// What follows an escape sequence whose `ESC` has just been read: the
/// characters after the first `'m'` of `t`, or nothing if `t` has no `'m'`.
pub open spec fn after_esc(t: Seq<char>) -> Seq<char>
    decreases t.len(),
{
    if t.len() == 0 {
        t
    } else if t[0] == 'm' {
        t.drop_first()
    } else {
        after_esc(t.drop_first())
    }
}

/// The body of an escape sequence whose `ESC` has just been read: the
/// characters of `t` up to and including its first `'m'`, or all of `t`.
pub open spec fn esc_body(t: Seq<char>) -> Seq<char>
    decreases t.len(),
{
    if t.len() == 0 {
        t
    } else if t[0] == 'm' {
        seq!['m']
    } else {
        seq![t[0]] + esc_body(t.drop_first())
    }
}

pub proof fn lemma_esc_split(t: Seq<char>)
    ensures
        t == esc_body(t) + after_esc(t),
        after_esc(t).len() <= t.len(),
        esc_body(t).len() > 0 && esc_body(t).last() == 'm' || after_esc(t).len() == 0,
        forall|k: int| 0 <= k < esc_body(t).len() - 1 ==> esc_body(t)[k] != 'm',
        esc_body(t).len() > 0 && esc_body(t).last() != 'm' ==> forall|k: int|
            0 <= k < esc_body(t).len() ==> esc_body(t)[k] != 'm',
    decreases t.len(),
{
    if t.len() > 0 && t[0] != 'm' {
        lemma_esc_split(t.drop_first());
        assert(t =~= seq![t[0]] + t.drop_first());
        let b = esc_body(t.drop_first());
        assert(esc_body(t) == seq![t[0]] + b);
        assert forall|k: int| 0 <= k < esc_body(t).len() - 1 implies esc_body(t)[k] != 'm' by {
            if k > 0 {
                assert(esc_body(t)[k] == b[k - 1]);
            }
        }
        assert(esc_body(t).len() > 0 && esc_body(t).last() != 'm' ==> forall|k: int|
            0 <= k < esc_body(t).len() ==> esc_body(t)[k] != 'm') by {
            if esc_body(t).len() > 0 && esc_body(t).last() != 'm' {
                assert forall|k: int| 0 <= k < esc_body(t).len() implies esc_body(t)[k]
                    != 'm' by {
                    if k > 0 {
                        assert(esc_body(t)[k] == b[k - 1]);
                        if b.len() == 0 {
                        } else {
                            assert(b.last() == esc_body(t).last());
                        }
                    }
                }
            }
        }
    } else if t.len() > 0 {
        assert(t =~= seq!['m'] + t.drop_first());
    }
}

/// The characters of `s` that a terminal shows: every escape sequence, from
/// `ESC` through the next `'m'` (or to the end), removed.
pub open spec fn strip(s: Seq<char>) -> Seq<char>
    decreases s.len(),
{
    if s.len() == 0 {
        s
    } else if s[0] == esc() {
        proof {
            lemma_esc_split(s.drop_first());
        }
        strip(after_esc(s.drop_first()))
    } else {
        seq![s[0]] + strip(s.drop_first())
    }
}

/// The number of characters that a terminal shows for `s`.
pub open spec fn visible_width(s: Seq<char>) -> nat {
    strip(s).len()
}

/// What `truncate_to_width` keeps of `s` when `vis` visible characters have
/// been kept already: escape sequences are copied whole, visible characters
/// until `max` of them have been kept.
pub open spec fn keep_visible(s: Seq<char>, vis: nat, max: nat) -> Seq<char>
    decreases s.len(),
{
    if s.len() == 0 {
        s
    } else if s[0] == esc() {
        proof {
            lemma_esc_split(s.drop_first());
        }
        seq![esc()] + esc_body(s.drop_first()) + keep_visible(
            after_esc(s.drop_first()),
            vis,
            max,
        )
    } else if vis >= max {
        Seq::empty()
    } else {
        seq![s[0]] + keep_visible(s.drop_first(), vis + 1, max)
    }
}

/// `s` cut to at most `max` visible characters: unchanged if it fits,
/// otherwise what `keep_visible` keeps, followed by a reset.
pub open spec fn truncated(s: Seq<char>, max: nat) -> Seq<char> {
    if visible_width(s) <= max {
        s
    } else {
        keep_visible(s, 0, max) + reset_seq()
    }
}

proof fn lemma_after_esc_from(s: Seq<char>, i: int, j: int)
    requires
        0 <= i <= j <= s.len(),
        forall|k: int| i <= k < j ==> s[k] != 'm',
    ensures
        after_esc(s.skip(i)) == after_esc(s.skip(j)),
        esc_body(s.skip(i)) == s.subrange(i, j) + esc_body(s.skip(j)),
    decreases j - i,
{
    if i < j {
        assert(s.skip(i).drop_first() =~= s.skip(i + 1));
        lemma_after_esc_from(s, i + 1, j);
        assert(s.subrange(i, j) =~= seq![s[i]] + s.subrange(i + 1, j));
    } else {
        assert(s.subrange(i, j) =~= Seq::<char>::empty());
    }
}

/// `s` holds no `ESC`.
pub open spec fn no_esc(s: Seq<char>) -> bool {
    forall|i: int| 0 <= i < s.len() ==> s[i] != esc()
}

proof fn lemma_strip_no_esc(s: Seq<char>)
    ensures
        no_esc(strip(s)),
        no_esc(s) ==> strip(s) == s,
    decreases s.len(),
{
    if s.len() > 0 {
        if s[0] == esc() {
            lemma_esc_split(s.drop_first());
            lemma_strip_no_esc(after_esc(s.drop_first()));
        } else {
            lemma_strip_no_esc(s.drop_first());
            let r = strip(s.drop_first());
            assert forall|i: int| 0 <= i < strip(s).len() implies strip(s)[i] != esc() by {
                if i > 0 {
                    assert(strip(s)[i] == r[i - 1]);
                }
            }
            if no_esc(s) {
                assert(no_esc(s.drop_first()));
                assert(s =~= seq![s[0]] + s.drop_first());
            }
        }
    }
}

/// Law: stripping is idempotent; what a terminal shows has no escape
/// sequences left to strip.
pub proof fn law_strip_idempotent(s: Seq<char>)
    ensures
        strip(strip(s)) == strip(s),
{
    lemma_strip_no_esc(s);
    lemma_strip_no_esc(strip(s));
}

proof fn lemma_after_esc_body(t: Seq<char>, y: Seq<char>)
    ensures
        esc_body(t).len() > 0 && esc_body(t).last() == 'm' ==> after_esc(esc_body(t) + y) == y,
        !(esc_body(t).len() > 0 && esc_body(t).last() == 'm') ==> after_esc(esc_body(t) + y)
            == after_esc(y),
    decreases t.len(),
{
    if t.len() == 0 {
        assert(esc_body(t) + y =~= y);
    } else if t[0] == 'm' {
        assert((seq!['m'] + y).drop_first() =~= y);
    } else {
        lemma_after_esc_body(t.drop_first(), y);
        let b = esc_body(t.drop_first());
        assert((seq![t[0]] + b + y).drop_first() =~= b + y);
        assert(esc_body(t) + y =~= seq![t[0]] + b + y);
        if b.len() > 0 {
            assert(esc_body(t).last() == b.last());
        }
    }
}

proof fn lemma_strip_reset()
    ensures
        after_esc(reset_seq()) == Seq::<char>::empty(),
        strip(reset_seq()) == Seq::<char>::empty(),
{
    let r = reset_seq();
    let a = seq!['[', '0', 'm'];
    let b = seq!['0', 'm'];
    let c = seq!['m'];
    assert(r.drop_first() =~= a);
    assert(a.drop_first() =~= b);
    assert(b.drop_first() =~= c);
    assert(c.drop_first() =~= Seq::<char>::empty());
    assert(after_esc(c) == Seq::<char>::empty());
    assert(after_esc(b) == after_esc(c));
    assert(after_esc(a) == after_esc(b));
    assert(after_esc(r) == after_esc(a));
    assert(strip(r) == strip(after_esc(a)));
}

/// The first `n` elements of `s`, or all of it when it is shorter.
pub open spec fn prefix_upto(s: Seq<char>, n: int) -> Seq<char> {
    if n < s.len() {
        s.take(n)
    } else {
        s
    }
}

proof fn lemma_keep_visible_strip(s: Seq<char>, vis: nat, max: nat)
    requires
        vis <= max,
    ensures
        strip(keep_visible(s, vis, max) + reset_seq()) == prefix_upto(strip(s), max - vis),
    decreases s.len(),
{
    lemma_strip_reset();
    if s.len() == 0 {
        assert(keep_visible(s, vis, max) + reset_seq() =~= reset_seq());
    } else if s[0] == esc() {
        let t = s.drop_first();
        lemma_esc_split(t);
        let k2 = keep_visible(after_esc(t), vis, max);
        lemma_keep_visible_strip(after_esc(t), vis, max);
        let x = keep_visible(s, vis, max) + reset_seq();
        assert(x =~= seq![esc()] + (esc_body(t) + (k2 + reset_seq())));
        assert(x.drop_first() =~= esc_body(t) + (k2 + reset_seq()));
        lemma_after_esc_body(t, k2 + reset_seq());
        if !(esc_body(t).len() > 0 && esc_body(t).last() == 'm') {
            assert(after_esc(t).len() == 0);
            assert(k2 =~= Seq::<char>::empty());
            assert(k2 + reset_seq() =~= reset_seq());
            assert(strip(after_esc(t)) =~= Seq::<char>::empty());
        }
    } else if vis >= max {
        assert(keep_visible(s, vis, max) + reset_seq() =~= reset_seq());
    } else {
        let k2 = keep_visible(s.drop_first(), vis + 1, max);
        lemma_keep_visible_strip(s.drop_first(), vis + 1, max);
        let x = keep_visible(s, vis, max) + reset_seq();
        assert(x =~= seq![s[0]] + (k2 + reset_seq()));
        assert(x.drop_first() =~= k2 + reset_seq());
        assert(strip(s) == seq![s[0]] + strip(s.drop_first()));
        assert(prefix_upto(strip(s), max - vis) =~= seq![s[0]] + prefix_upto(
            strip(s.drop_first()),
            max - (vis + 1),
        ));
    }
}

/// Law: cutting to `max` visible characters shows exactly the first
/// `min(max, visible width)` visible characters of the input, so what is
/// shown never exceeds `max` and a string that fits is left as it is.
pub proof fn law_truncate_keeps_visible_prefix(s: Seq<char>, max: nat)
    ensures
        strip(truncated(s, max)) == prefix_upto(strip(s), max as int),
        visible_width(truncated(s, max)) <= max,
        visible_width(s) <= max ==> truncated(s, max) == s,
{
    if visible_width(s) <= max {
    } else {
        lemma_keep_visible_strip(s, 0, max);
    }
}

proof fn lemma_strip_reset_suffix(x: Seq<char>)
    ensures
        strip(x + reset_seq()) == strip(x),
    decreases x.len(),
{
    lemma_strip_reset();
    if x.len() == 0 {
        assert(x + reset_seq() =~= reset_seq());
    } else if x[0] == esc() {
        let t = x.drop_first();
        lemma_esc_split(t);
        assert((x + reset_seq()).drop_first() =~= t + reset_seq());
        assert((x + reset_seq())[0] == esc());
        let y = after_esc(t) + reset_seq();
        assert(t + reset_seq() =~= esc_body(t) + y);
        lemma_after_esc_body(t, y);
        if esc_body(t).len() > 0 && esc_body(t).last() == 'm' {
            lemma_strip_reset_suffix(after_esc(t));
        } else {
            assert(after_esc(t).len() == 0);
            assert(y =~= reset_seq());
            assert(strip(after_esc(t)) =~= Seq::<char>::empty());
        }
    } else {
        lemma_strip_reset_suffix(x.drop_first());
        assert((x + reset_seq()).drop_first() =~= x.drop_first() + reset_seq());
        assert((x + reset_seq())[0] == x[0]);
    }
}

proof fn lemma_strip_skips_escape(body: Seq<char>, rest: Seq<char>)
    requires
        forall|i: int| 0 <= i < body.len() ==> body[i] != 'm',
    ensures
        strip(seq![esc()] + body + seq!['m'] + rest) == strip(rest),
{
    let s = seq![esc()] + body + seq!['m'] + rest;
    let t = s.drop_first();
    assert(t =~= body + seq!['m'] + rest);
    assert forall|k: int| 0 <= k < body.len() implies t[k] != 'm' by {
        assert(t[k] == body[k]);
    }
    lemma_after_esc_from(t, 0, body.len() as int);
    assert(t.skip(0) =~= t);
    let u = t.skip(body.len() as int);
    assert(u =~= seq!['m'] + rest);
    assert(u[0] == 'm');
    assert(u.drop_first() =~= rest);
}

proof fn lemma_dec_no_m(n: nat)
    ensures
        forall|i: int| 0 <= i < crate::text::dec(n).len() ==> crate::text::dec(n)[i] != 'm',
    decreases n,
{
    let d = crate::text::digit(n % 10);
    assert(d != 'm') by {
        assert(48 <= (n % 10 + 48) as u8 <= 57);
    }
    if n >= 10 {
        lemma_dec_no_m(n / 10);
        let p = crate::text::dec(n / 10);
        assert(crate::text::dec(n) == p.push(d));
        assert forall|i: int| 0 <= i < crate::text::dec(n).len() implies crate::text::dec(n)[i]
            != 'm' by {
            if i < p.len() {
                assert(crate::text::dec(n)[i] == p[i]);
            }
        }
    } else {
        assert(n % 10 == n);
        assert(crate::text::dec(n) == seq![d]);
    }
}

proof fn lemma_strip_rgb_prefix(layer: char, r: u8, g: u8, b: u8, rest: Seq<char>)
    requires
        layer == '3' || layer == '4',
    ensures
        strip(crate::theme::rgb_seq(layer, r, g, b) + rest) == strip(rest),
{
    let dr = crate::text::dec(r as nat);
    let dg = crate::text::dec(g as nat);
    let db = crate::text::dec(b as nat);
    let body = seq!['[', layer, '8', ';', '2', ';'] + dr + seq![';'] + dg + seq![';'] + db;
    lemma_dec_no_m(r as nat);
    lemma_dec_no_m(g as nat);
    lemma_dec_no_m(b as nat);
    assert forall|i: int| 0 <= i < body.len() implies body[i] != 'm' by {
        let a = seq!['[', layer, '8', ';', '2', ';'];
        if i < 6 {
            assert(body[i] == a[i]);
        } else if i < 6 + dr.len() {
            assert(body[i] == dr[i - 6]);
        } else if i == 6 + dr.len() {
        } else if i < 7 + dr.len() + dg.len() {
            assert(body[i] == dg[i - 7 - dr.len()]);
        } else if i == 7 + dr.len() + dg.len() {
        } else {
            assert(body[i] == db[i - 8 - dr.len() - dg.len()]);
        }
    }
    assert(crate::theme::rgb_seq(layer, r, g, b) + rest =~= seq![esc()] + body + seq!['m'] + rest);
    lemma_strip_skips_escape(body, rest);
}

/// Law: text in a palette colour shows as the text itself.
pub proof fn law_colored_shows_text(text: Seq<char>, idx: int)
    ensures
        strip(crate::theme::colored_seq(text, idx)) == strip(text),
{
    let c = crate::theme::palette(idx);
    lemma_strip_reset_suffix(text);
    assert(crate::theme::colored_seq(text, idx) =~= crate::theme::rgb_seq('3', c.0, c.1, c.2) + (
    text + reset_seq()));
    lemma_strip_rgb_prefix('3', c.0, c.1, c.2, text + reset_seq());
}

/// Law: a cell of the contribution graph shows as one space, so the graph
/// is one column per week.
pub proof fn law_graph_cell_is_one_column(idx: int)
    ensures
        strip(crate::contributions::bg_cell_seq(idx)) == seq![' '],
{
    let c = crate::theme::palette(idx);
    lemma_strip_reset_suffix(seq![' ']);
    assert(crate::contributions::bg_cell_seq(idx) =~= crate::theme::rgb_seq('4', c.0, c.1, c.2)
        + (seq![' '] + reset_seq()));
    lemma_strip_rgb_prefix('4', c.0, c.1, c.2, seq![' '] + reset_seq());
    assert(seq![' '].drop_first() =~= Seq::<char>::empty());
    assert(strip(seq![' ']) =~= seq![' '] + strip(Seq::<char>::empty()));
}

/// Law: a pixel of the avatar shows as two spaces, so an avatar row of `n`
/// pixels is `2n` columns wide, the width that `AvatarArt` records.
pub proof fn law_avatar_pixel_is_two_columns(p: (u8, u8, u8))
    ensures
        strip(crate::avatar::pixel_cell(p)) == seq![' ', ' '],
{
    lemma_strip_reset_suffix(seq![' ', ' ']);
    assert(crate::avatar::pixel_cell(p) =~= crate::theme::rgb_seq('4', p.0, p.1, p.2) + (seq![
        ' ',
        ' ',
    ] + reset_seq()));
    lemma_strip_rgb_prefix('4', p.0, p.1, p.2, seq![' ', ' '] + reset_seq());
    assert(seq![' ', ' '].drop_first() =~= seq![' ']);
    assert(seq![' '].drop_first() =~= Seq::<char>::empty());
    assert(strip(seq![' ']) =~= seq![' '] + strip(Seq::<char>::empty()));
    assert(strip(seq![' ', ' ']) =~= seq![' '] + strip(seq![' ']));
}

/// The visible characters of `s`.
pub fn strip_ansi(s: &str) -> (r: String)
    ensures
        r@ == strip(s@),
{
    let v = chars_of(s);
    let mut r = String::new();
    let mut i: usize = 0;
    assert(v@.skip(0) =~= v@);
    while i < v.len()
        invariant
            v@ == s@,
            i <= v@.len(),
            strip(s@) == r@ + strip(v@.skip(i as int)),
        decreases v@.len() - i,
    {
        let c = v[i];
        assert(v@.skip(i as int).drop_first() =~= v@.skip(i + 1));
        if c == '\u{1b}' {
            let mut j = i + 1;
            while j < v.len() && v[j] != 'm'
                invariant
                    i + 1 <= j <= v@.len(),
                    forall|k: int| i + 1 <= k < j ==> v@[k] != 'm',
                decreases v@.len() - j,
            {
                j = j + 1;
            }
            proof {
                lemma_after_esc_from(v@, i + 1, j as int);
            }
            if j < v.len() {
                assert(after_esc(v@.skip(j as int)) =~= v@.skip(j + 1));
                i = j + 1;
            } else {
                assert(after_esc(v@.skip(j as int)) =~= v@.skip(j as int));
                i = j;
            }
        } else {
            push_char(&mut r, c);
            i = i + 1;
        }
    }
    assert(v@.skip(i as int).len() == 0);
    r
}

/// The number of visible characters of `s`.
pub fn visible_len(s: &str) -> (n: usize)
    ensures
        n == visible_width(s@),
{
    let t = strip_ansi(s);
    let v = chars_of(t.as_str());
    v.len()
}

/// `s` cut to at most `max_width` visible characters, keeping every escape
/// sequence met on the way and ending with a reset when anything was cut.
pub fn truncate_to_width(s: &str, max_width: usize) -> (r: String)
    ensures
        r@ == truncated(s@, max_width as nat),
{
    let v = chars_of(s);
    if visible_len(s) <= max_width {
        return crate::text::string_of(v.as_slice());
    }
    let mut r = String::new();
    let mut visible: usize = 0;
    let mut i: usize = 0;
    assert(v@.skip(0) =~= v@);
    while i < v.len()
        invariant
            v@ == s@,
            i <= v@.len(),
            visible <= max_width,
            keep_visible(s@, 0, max_width as nat) == r@ + keep_visible(
                v@.skip(i as int),
                visible as nat,
                max_width as nat,
            ),
        ensures
            i == v@.len() || (i < v@.len() && v@[i as int] != esc() && visible >= max_width),
        decreases v@.len() - i,
    {
        let c = v[i];
        assert(v@.skip(i as int).drop_first() =~= v@.skip(i + 1));
        if c == '\u{1b}' {
            let ghost before = r@;
            push_char(&mut r, c);
            let mut j = i + 1;
            while j < v.len() && v[j] != 'm'
                invariant
                    i + 1 <= j <= v@.len(),
                    forall|k: int| i + 1 <= k < j ==> v@[k] != 'm',
                    r@ == before.push(esc()) + v@.subrange(i + 1, j as int),
                decreases v@.len() - j,
            {
                let ghost r0 = r@;
                push_char(&mut r, v[j]);
                assert(v@.subrange(i + 1, j + 1) =~= v@.subrange(i + 1, j as int).push(
                    v@[j as int],
                ));
                j = j + 1;
            }
            proof {
                lemma_after_esc_from(v@, i + 1, j as int);
            }
            if j < v.len() {
                push_char(&mut r, 'm');
                assert(after_esc(v@.skip(j as int)) =~= v@.skip(j + 1));
                assert(esc_body(v@.skip(j as int)) =~= seq!['m']);
                assert(r@ =~= before + (seq![esc()] + esc_body(v@.skip(i + 1))));
                i = j + 1;
            } else {
                assert(after_esc(v@.skip(j as int)) =~= v@.skip(j as int));
                assert(esc_body(v@.skip(j as int)) =~= Seq::<char>::empty());
                assert(r@ =~= before + (seq![esc()] + esc_body(v@.skip(i + 1))));
                i = j;
            }
        } else {
            if visible >= max_width {
                break;
            }
            visible = visible + 1;
            push_char(&mut r, c);
            i = i + 1;
        }
    }
    assert(keep_visible(v@.skip(i as int), visible as nat, max_width as nat) =~= Seq::<
        char,
    >::empty()) by {
        if i < v@.len() {
            assert(v@.skip(i as int)[0] == v@[i as int]);
        }
    }
    push_reset(&mut r);
    r
}

// ---------------------------------------------------------------------------
// System lines
// ---------------------------------------------------------------------------
/// The glyph configured for `key`: the value of the first pair with that key.
pub open spec fn override_for(overrides: Seq<(String, String)>, key: Seq<char>) -> Option<Seq<char>>
    decreases overrides.len(),
{
    if overrides.len() == 0 {
        None
    } else if overrides[0].0@ == key {
        Some(overrides[0].1@)
    } else {
        override_for(overrides.drop_first(), key)
    }
}

/// The icon of a system line: with Nerd Font icons, the configured glyph for
/// the key or else the table's icon; otherwise the configured ghost.
pub open spec fn line_icon(config: Config, key: Seq<char>) -> Seq<char> {
    if config.display.nerd_font_icons {
        match override_for(config.icons.overrides@, key) {
            Some(g) => g,
            None => icon_for(key),
        }
    } else {
        config.icons.ghost_icon@
    }
}

/// A system line: icon, space, label, two spaces, value, each in `color`.
pub open spec fn system_line(icon: Seq<char>, label: Seq<char>, value: Seq<char>, color: u8) -> Seq<
    char,
> {
    colored_seq(icon, color as int) + seq![' '] + colored_seq(label, color as int) + seq![' ', ' ']
        + colored_seq(value, color as int)
}

/// `used / total`.
pub open spec fn usage_text(used: Seq<char>, total: Seq<char>) -> Seq<char> {
    used + seq![' ', '/', ' '] + total
}

/// The memory value.
pub open spec fn ram_text(s: SystemInfo) -> Seq<char> {
    usage_text(bytes_text(s.ram_used as nat), bytes_text(s.ram_total as nat))
}

/// The disk value: usage, or `N/A` when the total is not known.
pub open spec fn disk_text(s: SystemInfo) -> Seq<char> {
    if s.disk_total > 0 {
        usage_text(bytes_text(s.disk_used as nat), bytes_text(s.disk_total as nat))
    } else {
        seq!['N', '/', 'A']
    }
}

/// The twelve system lines, in order: OS, kernel, host, CPU, GPU, RAM,
/// disk, shell, terminal, resolution, uptime, architecture.
pub open spec fn system_lines(s: SystemInfo, c: Config) -> Seq<Seq<char>> {
    seq![
        system_line(line_icon(c, "os"@), "OS"@, s.os@, Gruvbox::GREEN),
        system_line(line_icon(c, "kernel"@), "Kernel"@, s.kernel@, Gruvbox::YELLOW),
        system_line(line_icon(c, "hostname"@), "Host"@, s.hostname@, Gruvbox::BLUE),
        system_line(line_icon(c, "cpu"@), "CPU"@, s.cpu@, Gruvbox::ORANGE),
        system_line(line_icon(c, "gpu"@), "GPU"@, s.gpu@, Gruvbox::PURPLE),
        system_line(line_icon(c, "ram"@), "RAM"@, ram_text(s), Gruvbox::AQUA),
        system_line(line_icon(c, "disk"@), "Disk"@, disk_text(s), Gruvbox::FG0),
        system_line(line_icon(c, "shell"@), "Shell"@, s.shell@, Gruvbox::GREEN),
        system_line(line_icon(c, "terminal"@), "Terminal"@, s.terminal@, Gruvbox::YELLOW),
        system_line(line_icon(c, "resolution"@), "Res"@, s.resolution@, Gruvbox::BLUE),
        system_line(line_icon(c, "uptime"@), "Uptime"@, s.uptime@, Gruvbox::ORANGE),
        system_line(line_icon(c, "arch"@), "Arch"@, s.arch@, Gruvbox::PURPLE),
    ]
}

fn find_override(overrides: &Vec<(String, String)>, key: &str) -> (r: Option<String>)
    ensures
        r matches Some(g) ==> override_for(overrides@, key@) == Some(g@),
        r is None ==> override_for(overrides@, key@) is None,
{
    let mut i: usize = 0;
    assert(overrides@.skip(0) =~= overrides@);
    while i < overrides.len()
        invariant
            i <= overrides@.len(),
            override_for(overrides@, key@) == override_for(overrides@.skip(i as int), key@),
        decreases overrides@.len() - i,
    {
        assert(overrides@.skip(i as int)[0] == overrides@[i as int]);
        assert(overrides@.skip(i as int).drop_first() =~= overrides@.skip(i + 1));
        if str_eq(overrides[i].0.as_str(), key) {
            return Some(overrides[i].1.clone());
        }
        i = i + 1;
    }
    assert(overrides@.skip(i as int).len() == 0);
    None
}

fn icon(config: &Config, key: &str) -> (r: String)
    ensures
        r@ == line_icon(*config, key@),
{
    if config.display.nerd_font_icons {
        match find_override(&config.icons.overrides, key) {
            Some(g) => g,
            None => String::from_str(Icons::get(key)),
        }
    } else {
        config.icons.ghost_icon.clone()
    }
}

fn push_colored(s: &mut String, text: &str, color: u8)
    requires
        color < 20,
    ensures
        final(s)@ == old(s)@ + colored_seq(text@, color as int),
{
    let ghost start = s@;
    push_fg_gruv(s, color);
    push_str(s, text);
    push_reset(s);
    assert(s@ =~= start + colored_seq(text@, color as int));
}

fn line_for(config: &Config, key: &str, label: &str, value: &str, color: u8) -> (r: String)
    requires
        color < 20,
    ensures
        r@ == system_line(line_icon(*config, key@), label@, value@, color),
{
    let ic = icon(config, key);
    let mut r = String::new();
    push_colored(&mut r, ic.as_str(), color);
    push_char(&mut r, ' ');
    push_colored(&mut r, label, color);
    push_char(&mut r, ' ');
    push_char(&mut r, ' ');
    push_colored(&mut r, value, color);
    assert(r@ =~= system_line(line_icon(*config, key@), label@, value@, color));
    r
}

fn usage(used: String, total: String) -> (r: String)
    ensures
        r@ == usage_text(used@, total@),
{
    let mut r = used;
    push_char(&mut r, ' ');
    push_char(&mut r, '/');
    push_char(&mut r, ' ');
    push_str(&mut r, total.as_str());
    assert(r@ =~= usage_text(used@, total@));
    r
}

/// The system lines.
pub fn build_system_lines(system: &SystemInfo, config: &Config, _max_width: Option<usize>) -> (r:
    Vec<String>)
    requires
        keys_unique(config.icons.overrides@),
    ensures
        string_views(r@) == system_lines(*system, *config),
{
    let ram = usage(system.ram_used_str(), system.ram_total_str());
    let disk = if system.disk_total > 0 {
        usage(system.disk_used_str(), system.disk_total_str())
    } else {
        let v = vec!['N', '/', 'A'];
        assert(v@ =~= seq!['N', '/', 'A']);
        string_of(v.as_slice())
    };
    let mut lines: Vec<String> = Vec::new();
    lines.push(line_for(config, "os", "OS", system.os.as_str(), Gruvbox::GREEN));
    lines.push(line_for(config, "kernel", "Kernel", system.kernel.as_str(), Gruvbox::YELLOW));
    lines.push(line_for(config, "hostname", "Host", system.hostname.as_str(), Gruvbox::BLUE));
    lines.push(line_for(config, "cpu", "CPU", system.cpu.as_str(), Gruvbox::ORANGE));
    lines.push(line_for(config, "gpu", "GPU", system.gpu.as_str(), Gruvbox::PURPLE));
    lines.push(line_for(config, "ram", "RAM", ram.as_str(), Gruvbox::AQUA));
    lines.push(line_for(config, "disk", "Disk", disk.as_str(), Gruvbox::FG0));
    lines.push(line_for(config, "shell", "Shell", system.shell.as_str(), Gruvbox::GREEN));
    lines.push(
        line_for(config, "terminal", "Terminal", system.terminal.as_str(), Gruvbox::YELLOW),
    );
    lines.push(line_for(config, "resolution", "Res", system.resolution.as_str(), Gruvbox::BLUE));
    lines.push(line_for(config, "uptime", "Uptime", system.uptime.as_str(), Gruvbox::ORANGE));
    lines.push(line_for(config, "arch", "Arch", system.arch.as_str(), Gruvbox::PURPLE));
    assert(string_views(lines@) =~= system_lines(*system, *config));
    lines
}

// ---------------------------------------------------------------------------
// Layout
// ---------------------------------------------------------------------------
/// The lines of the contribution graph that stand on the right: none when
/// the graph is switched off or there are no contributions.
pub open spec fn contrib_lines(
    contributions: Option<&ContributionData>,
    config: Config,
    ys: Seq<char>,
) -> Seq<Seq<char>> {
    if config.display.show_contributions && contributions is Some {
        lines(graph_text(contributions->0.weeks@, ys))
    } else {
        Seq::empty()
    }
}

/// The right column: the system lines, an empty line, the graph.
pub open spec fn right_column(
    system: SystemInfo,
    contributions: Option<&ContributionData>,
    config: Config,
    ys: Seq<char>,
) -> Seq<Seq<char>> {
    system_lines(system, config) + seq![Seq::<char>::empty()] + contrib_lines(
        contributions,
        config,
        ys,
    )
}

/// The height of the right column as `right_panel_height` counts it.
pub open spec fn panel_height(
    system: SystemInfo,
    contributions: Option<&ContributionData>,
    config: Config,
    ys: Seq<char>,
) -> nat {
    system_lines(system, config).len() + 1 + contrib_lines(contributions, config, ys).len()
}

/// The graph's total fits its `u32` counter when the graph is drawn.
pub open spec fn graph_fits(
    contributions: Option<&ContributionData>,
    config: Config,
    ys: Seq<char>,
) -> bool {
    config.display.show_contributions && contributions is Some ==> range_total(
        contributions->0.weeks@,
        ys,
    ) <= u32::MAX
}

fn graph_lines(
    contributions: Option<&ContributionData>,
    config: &Config,
    year_start: &str,
) -> (r: Vec<Vec<char>>)
    requires
        graph_fits(contributions, *config, year_start@),
    ensures
        views(r@) == contrib_lines(contributions, *config, year_start@),
{
    if config.display.show_contributions {
        if let Some(c) = contributions {
            let graph = render_graph_since(c, year_start);
            let g = chars_of(graph.as_str());
            return split_lines(g.as_slice());
        }
    }
    let r: Vec<Vec<char>> = Vec::new();
    assert(views(r@) =~= Seq::<Seq<char>>::empty());
    r
}

/// The height of the right column for the contributions since
/// `year_start`.
pub fn right_panel_height_since(
    system: &SystemInfo,
    contributions: Option<&ContributionData>,
    config: &Config,
    year_start: &str,
) -> (h: usize)
    requires
        graph_fits(contributions, *config, year_start@),
        keys_unique(config.icons.overrides@),
    ensures
        h == panel_height(*system, contributions, *config, year_start@),
{
    let sys_lines = build_system_lines(system, config, None);
    let sys = sys_lines.len();
    let graph = graph_lines(contributions, config, year_start);
    let glines = graph.len();
    assert(string_views(sys_lines@).len() == sys_lines@.len());
    assert(views(graph@).len() == graph@.len());
    proof {
        if config.display.show_contributions && contributions is Some {
            crate::contributions::law_graph_lines(contributions->0.weeks@, year_start@);
        }
    }
    assert(sys == 12);
    assert(glines <= 9);
    sys + 1 + glines
}

/// Whether this year's graph, when it is drawn, has a total that fits
/// the `u32` that counts it.
fn graph_fits_exec(
    contributions: Option<&ContributionData>,
    config: &Config,
    year_start: &str,
) -> (r: bool)
    ensures
        r == graph_fits(contributions, *config, year_start@),
{
    match contributions {
        Some(c) => {
            if config.display.show_contributions {
                let cutoff = chars_of(year_start);
                total_fits(&c.weeks, &cutoff)
            } else {
                true
            }
        },
        None => true,
    }
}

/// The height of the right column for this year's contributions; `None`
/// when the graph is drawn and this year's total does not fit its `u32`.
pub fn right_panel_height(
    system: &SystemInfo,
    contributions: Option<&ContributionData>,
    config: &Config,
) -> (h: Option<usize>)
    requires
        keys_unique(config.icons.overrides@),
    ensures
        exists|y: Seq<char>|
            is_year_text(y) && match h {
                Some(n) => graph_fits(contributions, *config, year_start(y)) && n == panel_height(
                    *system,
                    contributions,
                    *config,
                    year_start(y),
                ),
                None => !graph_fits(contributions, *config, year_start(y)),
            },
{
    let start = current_year_start();
    let ghost y = choose|y: Seq<char>| is_year_text(y) && start@ == year_start(y);
    if graph_fits_exec(contributions, config, start.as_str()) {
        let h = right_panel_height_since(system, contributions, config, start.as_str());
        assert(is_year_text(y));
        Some(h)
    } else {
        None
    }
}

/// The rendered screen, one string per line.
pub struct Output {
    pub lines: Vec<String>,
}

/// `n` spaces.
pub open spec fn spaces(n: nat) -> Seq<char> {
    Seq::new(n, |i: int| ' ')
}

/// The columns the avatar takes: the visible width of its first line.
pub open spec fn avatar_cols(av: Seq<Seq<char>>) -> nat {
    if av.len() > 0 {
        visible_width(av[0])
    } else {
        0
    }
}

/// The gap between avatar and right column: 4 with an avatar, else none.
pub open spec fn gap(avatar_width: nat) -> nat {
    if avatar_width > 0 {
        4
    } else {
        0
    }
}

/// `a - b`, or 0 when `b` is larger.
pub open spec fn sat_sub(a: nat, b: nat) -> nat {
    if a >= b {
        (a - b) as nat
    } else {
        0
    }
}

/// The columns left for the right column.
pub open spec fn right_room(term_width: nat, avatar_width: nat) -> nat {
    sat_sub(term_width, avatar_width + gap(avatar_width))
}

/// Line `i` of the avatar side, padded to the avatar's width and the gap.
pub open spec fn left_part(av: Seq<Seq<char>>, i: int) -> Seq<char> {
    let aw = avatar_cols(av);
    if i < av.len() {
        av[i] + spaces(sat_sub(aw, visible_width(av[i])) + gap(aw))
    } else if aw > 0 {
        spaces(aw + gap(aw))
    } else {
        Seq::empty()
    }
}

/// Line `i` of the right column, cut to the room left.
pub open spec fn right_part(right: Seq<Seq<char>>, i: int, room: nat) -> Seq<char> {
    if i < right.len() {
        truncated(right[i], room)
    } else {
        Seq::empty()
    }
}

/// The larger of two lengths.
pub open spec fn max_len(a: nat, b: nat) -> nat {
    if a >= b {
        a
    } else {
        b
    }
}

/// The screen: an empty line, then avatar and right column side by side for
/// as many lines as the taller has, then an empty line.
pub open spec fn layout(av: Seq<Seq<char>>, right: Seq<Seq<char>>, term_width: nat) -> Seq<
    Seq<char>,
> {
    let room = right_room(term_width, avatar_cols(av));
    seq![Seq::<char>::empty()] + Seq::new(
        max_len(av.len(), right.len()),
        |i: int| left_part(av, i) + right_part(right, i, room),
    ) + seq![Seq::<char>::empty()]
}

/// The avatar's lines, none without an avatar.
pub open spec fn avatar_lines(avatar: Option<&AvatarArt>) -> Seq<Seq<char>> {
    match avatar {
        Some(a) => string_views(a.lines@),
        None => Seq::empty(),
    }
}

/// The avatar's width leaves room for the gap in a `usize`.
pub open spec fn avatar_fits(avatar: Option<&AvatarArt>) -> bool {
    avatar_cols(avatar_lines(avatar)) + 4 <= usize::MAX
}

fn push_spaces(s: &mut String, n: usize)
    ensures
        final(s)@ == old(s)@ + spaces(n as nat),
{
    let ghost start = s@;
    let mut i: usize = 0;
    while i < n
        invariant
            i <= n,
            s@ == start + spaces(i as nat),
        decreases n - i,
    {
        push_char(s, ' ');
        assert(spaces((i + 1) as nat) =~= spaces(i as nat).push(' '));
        i = i + 1;
    }
}

/// The screen for the contributions since `year_start`, in a terminal
/// `term_width` columns wide.
pub fn render_since(
    avatar: Option<&AvatarArt>,
    system: &SystemInfo,
    contributions: Option<&ContributionData>,
    config: &Config,
    term_width: usize,
    year_start: &str,
) -> (out: Output)
    requires
        graph_fits(contributions, *config, year_start@),
        avatar_fits(avatar),
        keys_unique(config.icons.overrides@),
    ensures
        string_views(out.lines@) == layout(
            avatar_lines(avatar),
            right_column(*system, contributions, *config, year_start@),
            term_width as nat,
        ),
{
    let sys_lines = build_system_lines(system, config, None);
    let glines = graph_lines(contributions, config, year_start);
    let mut right: Vec<String> = sys_lines;
    right.push(String::new());
    let mut j: usize = 0;
    let ghost base = string_views(right@);
    while j < glines.len()
        invariant
            j <= glines@.len(),
            base.len() <= right@.len(),
            string_views(right@) == base + views(glines@).take(j as int),
        decreases glines@.len() - j,
    {
        let line = string_of(glines[j].as_slice());
        let ghost before = string_views(right@);
        right.push(line);
        assert(string_views(right@) =~= before.push(glines@[j as int]@));
        assert(views(glines@).take(j + 1) =~= views(glines@).take(j as int).push(
            glines@[j as int]@,
        ));
        j = j + 1;
    }
    assert(views(glines@).take(j as int) =~= views(glines@));
    let ghost rc = right_column(*system, contributions, *config, year_start@);
    assert(string_views(right@) =~= rc);
    let empty: Vec<String> = Vec::new();
    let av_lines: &Vec<String> = match avatar {
        Some(a) => &a.lines,
        None => &empty,
    };
    let ghost av = avatar_lines(avatar);
    assert(string_views(av_lines@) =~= av);
    let avatar_width: usize = if av_lines.len() > 0 {
        visible_len(av_lines[0].as_str())
    } else {
        0
    };
    let padding: usize = if avatar_width > 0 {
        4
    } else {
        0
    };
    let right_width = term_width.saturating_sub(avatar_width + padding);
    let mut lines: Vec<String> = Vec::new();
    lines.push(String::new());
    let max_height = if av_lines.len() >= right.len() {
        av_lines.len()
    } else {
        right.len()
    };
    let ghost room = right_room(term_width as nat, avatar_cols(av));
    let ghost f = |i: int| left_part(av, i) + right_part(rc, i, room);
    let mut i: usize = 0;
    while i < max_height
        invariant
            i <= max_height,
            max_height == max_len(av.len(), rc.len()),
            string_views(av_lines@) == av,
            string_views(right@) == rc,
            avatar_width == avatar_cols(av),
            avatar_width + 4 <= usize::MAX,
            padding == gap(avatar_width as nat),
            right_width == room,
            f == (|i: int| left_part(av, i) + right_part(rc, i, room)),
            string_views(lines@) == seq![Seq::<char>::empty()] + Seq::new(i as nat, f),
        decreases max_height - i,
    {
        let mut line = String::new();
        if i < av_lines.len() {
            let a = &av_lines[i];
            push_str(&mut line, a.as_str());
            let clean = visible_len(a.as_str());
            let fill = avatar_width.saturating_sub(clean) + padding;
            push_spaces(&mut line, fill);
        } else if avatar_width > 0 {
            push_spaces(&mut line, avatar_width + padding);
        }
        assert(line@ == left_part(av, i as int));
        if i < right.len() {
            let t = truncate_to_width(right[i].as_str(), right_width);
            push_str(&mut line, t.as_str());
        }
        assert(line@ =~= f(i as int));
        let ghost before = string_views(lines@);
        lines.push(line);
        assert(string_views(lines@) =~= before.push(f(i as int)));
        assert(seq![Seq::<char>::empty()] + Seq::new((i + 1) as nat, f) =~= (seq![
            Seq::<char>::empty(),
        ] + Seq::new(i as nat, f)).push(f(i as int)));
        i = i + 1;
    }
    let ghost before = string_views(lines@);
    lines.push(String::new());
    assert(string_views(lines@) =~= before.push(Seq::<char>::empty()));
    Output { lines }
}

/// `terminal_size::terminal_size`: the columns of the first of stdout,
/// stderr and stdin that is a terminal, when one is; its source reports a
/// size only when both dimensions are above zero.
#[verifier::external_body]
fn terminal_columns() -> (w: Option<u16>)
    ensures
        w matches Some(c) ==> c > 0,
{
    terminal_size::terminal_size().map(|(w, _)| w.0)
}

/// The width for what the terminal reported: its columns, or 80 when it
/// reported nothing.
pub open spec fn width_from(columns: Option<u16>) -> nat {
    match columns {
        Some(c) => c as nat,
        None => 80,
    }
}

/// The width in columns for what the terminal reported.
pub fn columns_or_default(columns: Option<u16>) -> (w: usize)
    ensures
        w == width_from(columns),
{
    match columns {
        Some(c) => c as usize,
        None => 80,
    }
}

/// The terminal's width in columns, 80 when it cannot be told. Which
/// terminal the process has is outside the library, so the width is that of
/// some report the terminal could give: a positive number of columns, or
/// none.
pub fn terminal_width() -> (w: usize)
    ensures
        w > 0,
        w <= u16::MAX,
        exists|c: Option<u16>| (c matches Some(x) ==> x > 0) && w == width_from(c),
{
    let c = terminal_columns();
    columns_or_default(c)
}

/// A width a terminal can report: at least one column and at most what a
/// `u16` holds.
pub open spec fn width_in_range(w: nat) -> bool {
    0 < w <= u16::MAX
}

/// The screen for this year's contributions in the current terminal;
/// `None` when the graph is drawn and this year's total does not fit its
/// `u32`.
pub fn render(
    avatar: Option<&AvatarArt>,
    system: &SystemInfo,
    contributions: Option<&ContributionData>,
    config: &Config,
) -> (out: Option<Output>)
    requires
        avatar_fits(avatar),
        keys_unique(config.icons.overrides@),
    ensures
        exists|y: Seq<char>, w: nat|
            #![trigger is_year_text(y), width_in_range(w)]
            is_year_text(y) && width_in_range(w) && match out {
                Some(o) => graph_fits(contributions, *config, year_start(y)) && string_views(
                    o.lines@,
                ) == layout(
                    avatar_lines(avatar),
                    right_column(*system, contributions, *config, year_start(y)),
                    w,
                ),
                None => !graph_fits(contributions, *config, year_start(y)),
            },
{
    let term_width = terminal_width();
    let start = current_year_start();
    let ghost y = choose|y: Seq<char>| is_year_text(y) && start@ == year_start(y);
    if graph_fits_exec(contributions, config, start.as_str()) {
        let out = render_since(avatar, system, contributions, config, term_width, start.as_str());
        assert(is_year_text(y) && width_in_range(term_width as nat));
        assert(string_views(out.lines@) == layout(
            avatar_lines(avatar),
            right_column(*system, contributions, *config, year_start(y)),
            term_width as nat,
        ));
        Some(out)
    } else {
        assert(is_year_text(y) && width_in_range(term_width as nat));
        None
    }
}

/// Law: `right_panel_height` counts exactly the lines that `render` stacks
/// in the right column.
pub proof fn law_panel_height_is_right_column(
    system: SystemInfo,
    contributions: Option<&ContributionData>,
    config: Config,
    ys: Seq<char>,
)
    ensures
        panel_height(system, contributions, config, ys) == right_column(
            system,
            contributions,
            config,
            ys,
        ).len(),
{
}

/// Law: the screen has the taller side's number of lines plus an empty line
/// above and below, and no line of the right column shows more than the
/// room left beside the avatar.
pub proof fn law_layout_shape(av: Seq<Seq<char>>, right: Seq<Seq<char>>, term_width: nat)
    ensures
        layout(av, right, term_width).len() == max_len(av.len(), right.len()) + 2,
        forall|i: int|
            0 <= i < right.len() ==> visible_width(
                #[trigger] right_part(right, i, right_room(term_width, avatar_cols(av))),
            ) <= right_room(term_width, avatar_cols(av)),
{
    assert forall|i: int| 0 <= i < right.len() implies visible_width(
        #[trigger] right_part(right, i, right_room(term_width, avatar_cols(av))),
    ) <= right_room(term_width, avatar_cols(av)) by {
        law_truncate_keeps_visible_prefix(right[i], right_room(term_width, avatar_cols(av)));
    }
}

proof fn lemma_after_esc_reset(rest: Seq<char>)
    ensures
        after_esc(reset_seq() + rest) == rest,
{
    let s0 = reset_seq() + rest;
    let s1 = s0.drop_first();
    let s2 = s1.drop_first();
    let s3 = s2.drop_first();
    assert(s0[0] == esc());
    assert(s1[0] == '[');
    assert(s2[0] == '0');
    assert(s3[0] == 'm');
    assert(s3.drop_first() =~= rest);
    assert(after_esc(s3) == rest);
    assert(after_esc(s2) == after_esc(s3));
    assert(after_esc(s1) == after_esc(s2));
    assert(after_esc(s0) == after_esc(s1));
}

/// What a reset shows is nothing, and it ends any escape sequence left
/// open before it: the text on each side of it shows on its own.
proof fn lemma_strip_reset_join(x: Seq<char>, rest: Seq<char>)
    ensures
        strip(x + reset_seq() + rest) == strip(x) + strip(rest),
    decreases x.len(),
{
    if x.len() == 0 {
        assert(x + reset_seq() + rest =~= seq![esc()] + seq!['[', '0'] + seq!['m'] + rest);
        lemma_strip_skips_escape(seq!['[', '0'], rest);
        assert(strip(x) + strip(rest) =~= strip(rest));
    } else if x[0] == esc() {
        let t = x.drop_first();
        lemma_esc_split(t);
        let w = x + reset_seq() + rest;
        assert(w[0] == esc());
        let y = after_esc(t) + reset_seq() + rest;
        assert(w.drop_first() =~= t + reset_seq() + rest);
        assert(t + reset_seq() + rest =~= esc_body(t) + after_esc(t) + reset_seq() + rest);
        assert(w.drop_first() =~= esc_body(t) + y);
        lemma_after_esc_body(t, y);
        if esc_body(t).len() > 0 && esc_body(t).last() == 'm' {
            lemma_strip_reset_join(after_esc(t), rest);
        } else {
            assert(after_esc(t).len() == 0);
            assert(y =~= reset_seq() + rest);
            lemma_after_esc_reset(rest);
            assert(strip(after_esc(t)) =~= Seq::<char>::empty());
            assert(strip(x) + strip(rest) =~= strip(rest));
        }
    } else {
        lemma_strip_reset_join(x.drop_first(), rest);
        let w = x + reset_seq() + rest;
        assert(w.drop_first() =~= x.drop_first() + reset_seq() + rest);
        assert(w[0] == x[0]);
        assert(strip(x) + strip(rest) =~= seq![x[0]] + (strip(x.drop_first()) + strip(rest)));
    }
}

proof fn lemma_strip_colored_join(x: Seq<char>, idx: int, rest: Seq<char>)
    ensures
        strip(colored_seq(x, idx) + rest) == strip(x) + strip(rest),
{
    let c = crate::theme::palette(idx);
    assert(colored_seq(x, idx) + rest =~= crate::theme::rgb_seq('3', c.0, c.1, c.2) + (x
        + reset_seq() + rest));
    lemma_strip_rgb_prefix('3', c.0, c.1, c.2, x + reset_seq() + rest);
    lemma_strip_reset_join(x, rest);
}

proof fn lemma_strip_plain_join(p: Seq<char>, rest: Seq<char>)
    requires
        no_esc(p),
    ensures
        strip(p + rest) == p + strip(rest),
    decreases p.len(),
{
    if p.len() > 0 {
        lemma_strip_plain_join(p.drop_first(), rest);
        let w = p + rest;
        assert(w[0] == p[0]);
        assert(w.drop_first() =~= p.drop_first() + rest);
        assert(p + strip(rest) =~= seq![p[0]] + (p.drop_first() + strip(rest)));
    } else {
        assert(p + rest =~= rest);
        assert(p + strip(rest) =~= strip(rest));
    }
}

/// Law: a system line shows its icon, a space, its label, two spaces and
/// its value; the colours add nothing that shows.
pub proof fn law_system_line_shows(icon: Seq<char>, label: Seq<char>, value: Seq<char>, color: u8)
    ensures
        strip(system_line(icon, label, value, color)) == strip(icon) + seq![' '] + strip(label)
            + seq![' ', ' '] + strip(value),
{
    let ci = color as int;
    let c3 = colored_seq(value, ci);
    let r2 = seq![' ', ' '] + c3;
    let r1 = seq![' '] + colored_seq(label, ci) + r2;
    assert(system_line(icon, label, value, color) =~= colored_seq(icon, ci) + r1);
    lemma_strip_colored_join(icon, ci, r1);
    assert(no_esc(seq![' ']));
    assert(r1 =~= seq![' '] + (colored_seq(label, ci) + r2));
    lemma_strip_plain_join(seq![' '], colored_seq(label, ci) + r2);
    lemma_strip_colored_join(label, ci, r2);
    assert(no_esc(seq![' ', ' ']));
    lemma_strip_plain_join(seq![' ', ' '], c3);
    law_colored_shows_text(value, ci);
}

/// What a system line shows: the icon for `key`, the label and the value.
pub open spec fn shown_line(c: Config, key: Seq<char>, label: Seq<char>, value: Seq<char>) -> Seq<
    char,
> {
    strip(line_icon(c, key)) + seq![' '] + label + seq![' ', ' '] + strip(value)
}

proof fn lemma_line_shows(c: Config, key: Seq<char>, label: Seq<char>, value: Seq<char>, color: u8)
    requires
        no_esc(label),
    ensures
        strip(system_line(line_icon(c, key), label, value, color)) == shown_line(c, key, label, value),
{
    law_system_line_shows(line_icon(c, key), label, value, color);
    lemma_strip_no_esc(label);
}

/// Law: each of the twelve system lines shows, under its label, the field
/// that the label names: OS the system name, Kernel the kernel, Host the
/// host name, CPU, GPU, RAM the memory used and total, Disk the disk used
/// and total (`N/A` when the total is unknown), Shell the shell, Terminal
/// the terminal, Res the resolution, Uptime the uptime and Arch the
/// architecture.
#[verifier::spinoff_prover]
#[verifier::rlimit(60)]
pub proof fn law_system_lines_show_fields(s: SystemInfo, c: Config)
    ensures
        system_lines(s, c).len() == 12,
        strip(system_lines(s, c)[0]) == shown_line(c, "os"@, "OS"@, s.os@),
        strip(system_lines(s, c)[1]) == shown_line(c, "kernel"@, "Kernel"@, s.kernel@),
        strip(system_lines(s, c)[2]) == shown_line(c, "hostname"@, "Host"@, s.hostname@),
        strip(system_lines(s, c)[3]) == shown_line(c, "cpu"@, "CPU"@, s.cpu@),
        strip(system_lines(s, c)[4]) == shown_line(c, "gpu"@, "GPU"@, s.gpu@),
        strip(system_lines(s, c)[5]) == shown_line(
            c,
            "ram"@,
            "RAM"@,
            bytes_text(s.ram_used as nat) + seq![' ', '/', ' '] + bytes_text(s.ram_total as nat),
        ),
        strip(system_lines(s, c)[6]) == shown_line(
            c,
            "disk"@,
            "Disk"@,
            if s.disk_total > 0 {
                bytes_text(s.disk_used as nat) + seq![' ', '/', ' '] + bytes_text(
                    s.disk_total as nat,
                )
            } else {
                seq!['N', '/', 'A']
            },
        ),
        strip(system_lines(s, c)[7]) == shown_line(c, "shell"@, "Shell"@, s.shell@),
        strip(system_lines(s, c)[8]) == shown_line(c, "terminal"@, "Terminal"@, s.terminal@),
        strip(system_lines(s, c)[9]) == shown_line(c, "resolution"@, "Res"@, s.resolution@),
        strip(system_lines(s, c)[10]) == shown_line(c, "uptime"@, "Uptime"@, s.uptime@),
        strip(system_lines(s, c)[11]) == shown_line(c, "arch"@, "Arch"@, s.arch@),
{
    let ls = system_lines(s, c);
    assert(strip(ls[0]) == shown_line(c, "os"@, "OS"@, s.os@)) by {
        reveal_strlit("OS");
        assert(no_esc("OS"@));
        lemma_line_shows(c, "os"@, "OS"@, s.os@, Gruvbox::GREEN);
    }
    assert(strip(ls[1]) == shown_line(c, "kernel"@, "Kernel"@, s.kernel@)) by {
        reveal_strlit("Kernel");
        assert(no_esc("Kernel"@));
        lemma_line_shows(c, "kernel"@, "Kernel"@, s.kernel@, Gruvbox::YELLOW);
    }
    assert(strip(ls[2]) == shown_line(c, "hostname"@, "Host"@, s.hostname@)) by {
        reveal_strlit("Host");
        assert(no_esc("Host"@));
        lemma_line_shows(c, "hostname"@, "Host"@, s.hostname@, Gruvbox::BLUE);
    }
    assert(strip(ls[3]) == shown_line(c, "cpu"@, "CPU"@, s.cpu@)) by {
        reveal_strlit("CPU");
        assert(no_esc("CPU"@));
        lemma_line_shows(c, "cpu"@, "CPU"@, s.cpu@, Gruvbox::ORANGE);
    }
    assert(strip(ls[4]) == shown_line(c, "gpu"@, "GPU"@, s.gpu@)) by {
        reveal_strlit("GPU");
        assert(no_esc("GPU"@));
        lemma_line_shows(c, "gpu"@, "GPU"@, s.gpu@, Gruvbox::PURPLE);
    }
    assert(strip(ls[5]) == shown_line(c, "ram"@, "RAM"@, ram_text(s))) by {
        reveal_strlit("RAM");
        assert(no_esc("RAM"@));
        lemma_line_shows(c, "ram"@, "RAM"@, ram_text(s), Gruvbox::AQUA);
    }
    assert(strip(ls[6]) == shown_line(c, "disk"@, "Disk"@, disk_text(s))) by {
        reveal_strlit("Disk");
        assert(no_esc("Disk"@));
        lemma_line_shows(c, "disk"@, "Disk"@, disk_text(s), Gruvbox::FG0);
    }
    assert(strip(ls[7]) == shown_line(c, "shell"@, "Shell"@, s.shell@)) by {
        reveal_strlit("Shell");
        assert(no_esc("Shell"@));
        lemma_line_shows(c, "shell"@, "Shell"@, s.shell@, Gruvbox::GREEN);
    }
    assert(strip(ls[8]) == shown_line(c, "terminal"@, "Terminal"@, s.terminal@)) by {
        reveal_strlit("Terminal");
        assert(no_esc("Terminal"@));
        lemma_line_shows(c, "terminal"@, "Terminal"@, s.terminal@, Gruvbox::YELLOW);
    }
    assert(strip(ls[9]) == shown_line(c, "resolution"@, "Res"@, s.resolution@)) by {
        reveal_strlit("Res");
        assert(no_esc("Res"@));
        lemma_line_shows(c, "resolution"@, "Res"@, s.resolution@, Gruvbox::BLUE);
    }
    assert(strip(ls[10]) == shown_line(c, "uptime"@, "Uptime"@, s.uptime@)) by {
        reveal_strlit("Uptime");
        assert(no_esc("Uptime"@));
        lemma_line_shows(c, "uptime"@, "Uptime"@, s.uptime@, Gruvbox::ORANGE);
    }
    assert(strip(ls[11]) == shown_line(c, "arch"@, "Arch"@, s.arch@)) by {
        reveal_strlit("Arch");
        assert(no_esc("Arch"@));
        lemma_line_shows(c, "arch"@, "Arch"@, s.arch@, Gruvbox::PURPLE);
    }
}

} // verus!
