//! The Gruvbox palette, ANSI escape sequences and the icon table.
use vstd::prelude::*;

use crate::text::{dec, push_char, push_dec, push_str, str_eq};

verus! {

/// The Gruvbox dark palette, indexed by the constants below.
pub struct Gruvbox;

/// The palette: red, green and blue of each of the twenty colours.
pub open spec fn palette(i: int) -> (u8, u8, u8) {
    if i == 0 {
        (0x28, 0x28, 0x28)
    } else if i == 1 {
        (0x1d, 0x20, 0x21)
    } else if i == 2 {
        (0x28, 0x28, 0x28)
    } else if i == 3 {
        (0x3c, 0x38, 0x36)
    } else if i == 4 {
        (0x50, 0x49, 0x45)
    } else if i == 5 {
        (0x66, 0x5c, 0x54)
    } else if i == 6 {
        (0x7c, 0x6f, 0x64)
    } else if i == 7 {
        (0xfb, 0xf1, 0xc7)
    } else if i == 8 {
        (0xeb, 0xdb, 0xb2)
    } else if i == 9 {
        (0xd5, 0xc4, 0xa1)
    } else if i == 10 {
        (0xbd, 0xae, 0x93)
    } else if i == 11 {
        (0xa8, 0x99, 0x84)
    } else if i == 12 {
        (0x92, 0x83, 0x74)
    } else if i == 13 {
        (0xcc, 0x24, 0x1d)
    } else if i == 14 {
        (0x98, 0x97, 0x1a)
    } else if i == 15 {
        (0xd7, 0x99, 0x21)
    } else if i == 16 {
        (0x45, 0x85, 0x88)
    } else if i == 17 {
        (0xb1, 0x62, 0x86)
    } else if i == 18 {
        (0x68, 0x9d, 0x6a)
    } else {
        (0xd6, 0x5d, 0x0e)
    }
}

/// The number of colours in the palette.
pub const PALETTE_LEN: u8 = 20;

/// Squared Euclidean distance between `(r, g, b)` and palette colour `i`.
pub open spec fn distance(r: u8, g: u8, b: u8, i: int) -> int {
    let c = palette(i);
    (r - c.0) * (r - c.0) + (g - c.1) * (g - c.1) + (b - c.2) * (b - c.2)
}

/// `n` is the first palette index at minimal distance from `(r, g, b)`.
pub open spec fn is_nearest(r: u8, g: u8, b: u8, n: int) -> bool {
    &&& 0 <= n < PALETTE_LEN
    &&& forall|j: int| 0 <= j < PALETTE_LEN ==> distance(r, g, b, n) <= #[trigger] distance(
        r,
        g,
        b,
        j,
    )
    &&& forall|j: int| 0 <= j < n ==> distance(r, g, b, n) < #[trigger] distance(r, g, b, j)
}

proof fn lemma_square_bound(d: int)
    requires
        -255 <= d <= 255,
    ensures
        0 <= d * d <= 65025,
{
    assert(0 <= d * d <= 65025) by (nonlinear_arith)
        requires
            -255 <= d <= 255,
    ;
}

impl Gruvbox {
    pub const BG: u8 = 0;

    pub const BG0_H: u8 = 1;

    pub const BG0: u8 = 2;

    pub const BG1: u8 = 3;

    pub const BG2: u8 = 4;

    pub const BG3: u8 = 5;

    pub const BG4: u8 = 6;

    pub const FG: u8 = 7;

    pub const FG0: u8 = 8;

    pub const FG1: u8 = 9;

    pub const FG2: u8 = 10;

    pub const FG3: u8 = 11;

    pub const FG4: u8 = 12;

    pub const RED: u8 = 13;

    pub const GREEN: u8 = 14;

    pub const YELLOW: u8 = 15;

    pub const BLUE: u8 = 16;

    pub const PURPLE: u8 = 17;

    pub const AQUA: u8 = 18;

    pub const ORANGE: u8 = 19;

    /// The red, green and blue of palette colour `idx`.
    pub fn rgb(idx: u8) -> (c: (u8, u8, u8))
        requires
            idx < PALETTE_LEN,
        ensures
            c == palette(idx as int),
    {
        if idx == 0 {
            (0x28, 0x28, 0x28)
        } else if idx == 1 {
            (0x1d, 0x20, 0x21)
        } else if idx == 2 {
            (0x28, 0x28, 0x28)
        } else if idx == 3 {
            (0x3c, 0x38, 0x36)
        } else if idx == 4 {
            (0x50, 0x49, 0x45)
        } else if idx == 5 {
            (0x66, 0x5c, 0x54)
        } else if idx == 6 {
            (0x7c, 0x6f, 0x64)
        } else if idx == 7 {
            (0xfb, 0xf1, 0xc7)
        } else if idx == 8 {
            (0xeb, 0xdb, 0xb2)
        } else if idx == 9 {
            (0xd5, 0xc4, 0xa1)
        } else if idx == 10 {
            (0xbd, 0xae, 0x93)
        } else if idx == 11 {
            (0xa8, 0x99, 0x84)
        } else if idx == 12 {
            (0x92, 0x83, 0x74)
        } else if idx == 13 {
            (0xcc, 0x24, 0x1d)
        } else if idx == 14 {
            (0x98, 0x97, 0x1a)
        } else if idx == 15 {
            (0xd7, 0x99, 0x21)
        } else if idx == 16 {
            (0x45, 0x85, 0x88)
        } else if idx == 17 {
            (0xb1, 0x62, 0x86)
        } else if idx == 18 {
            (0x68, 0x9d, 0x6a)
        } else {
            (0xd6, 0x5d, 0x0e)
        }
    }

    /// The palette colour closest to `(r, g, b)` in squared Euclidean
    /// distance; of several equally close, the one with the lowest index.
    pub fn nearest(r: u8, g: u8, b: u8) -> (n: u8)
        ensures
            is_nearest(r, g, b, n as int),
    {
        let mut best: u8 = 0;
        let mut best_dist: u32 = u32::MAX;
        let mut i: u8 = 0;
        while i < PALETTE_LEN
            invariant
                i <= PALETTE_LEN,
                best < PALETTE_LEN,
                i == 0 ==> best == 0 && best_dist == u32::MAX,
                i > 0 ==> best < i && best_dist as int == distance(r, g, b, best as int),
                forall|j: int| 0 <= j < i ==> best_dist <= #[trigger] distance(r, g, b, j),
                forall|j: int| 0 <= j < best ==> best_dist < #[trigger] distance(r, g, b, j),
            decreases PALETTE_LEN - i,
        {
            let color = Self::rgb(i);
            let dr: i32 = r as i32 - color.0 as i32;
            let dg: i32 = g as i32 - color.1 as i32;
            let db: i32 = b as i32 - color.2 as i32;
            proof {
                lemma_square_bound(dr as int);
                lemma_square_bound(dg as int);
                lemma_square_bound(db as int);
            }
            let dist = (dr * dr + dg * dg + db * db) as u32;
            assert(dist as int == distance(r, g, b, i as int));
            if dist < best_dist {
                best_dist = dist;
                best = i;
            }
            i = i + 1;
        }
        best
    }
}

/// Law: a colour of the palette is its own nearest colour: whatever index
/// `nearest` gives for it names the same red, green and blue (the palette
/// holds one colour twice, under `BG` and `BG0`).
pub proof fn law_palette_colour_is_own_nearest(i: int, n: int)
    requires
        0 <= i < PALETTE_LEN,
        is_nearest(palette(i).0, palette(i).1, palette(i).2, n),
    ensures
        palette(n) == palette(i),
{
    let c = palette(i);
    assert(distance(c.0, c.1, c.2, i) == 0);
    assert(distance(c.0, c.1, c.2, n) <= distance(c.0, c.1, c.2, i));
    let d = palette(n);
    let dr = c.0 - d.0;
    let dg = c.1 - d.1;
    let db = c.2 - d.2;
    assert(dr * dr >= 0 && dg * dg >= 0 && db * db >= 0) by (nonlinear_arith);
    assert(dr * dr == 0 ==> dr == 0) by (nonlinear_arith);
    assert(dg * dg == 0 ==> dg == 0) by (nonlinear_arith);
    assert(db * db == 0 ==> db == 0) by (nonlinear_arith);
}

/// The escape character that starts every ANSI control sequence.
pub open spec fn esc() -> char {
    '\u{1b}'
}

/// `ESC [ 0 m`: all attributes off.
pub open spec fn reset_seq() -> Seq<char> {
    seq![esc(), '[', '0', 'm']
}

/// `ESC [ 1 m`: bold.
pub open spec fn bold_seq() -> Seq<char> {
    seq![esc(), '[', '1', 'm']
}

/// `ESC [ <layer>8;2;<r>;<g>;<b> m`: a 24-bit colour for the foreground
/// (layer `'3'`) or the background (layer `'4'`).
pub open spec fn rgb_seq(layer: char, r: u8, g: u8, b: u8) -> Seq<char> {
    seq![esc(), '[', layer, '8', ';', '2', ';'] + dec(r as nat) + seq![';'] + dec(g as nat)
        + seq![';'] + dec(b as nat) + seq!['m']
}

/// Foreground sequence of palette colour `idx`.
pub open spec fn fg_gruv_seq(idx: int) -> Seq<char> {
    let c = palette(idx);
    rgb_seq('3', c.0, c.1, c.2)
}

/// Background sequence of palette colour `idx`.
pub open spec fn bg_gruv_seq(idx: int) -> Seq<char> {
    let c = palette(idx);
    rgb_seq('4', c.0, c.1, c.2)
}

/// `text` in palette colour `idx`, followed by a reset.
pub open spec fn colored_seq(text: Seq<char>, idx: int) -> Seq<char> {
    fg_gruv_seq(idx) + text + reset_seq()
}

/// ANSI escape sequences.
pub struct Ansi;

fn push_rgb(s: &mut String, layer: char, r: u8, g: u8, b: u8)
    ensures
        final(s)@ == old(s)@ + rgb_seq(layer, r, g, b),
{
    let ghost start = s@;
    push_char(s, '\u{1b}');
    push_char(s, '[');
    push_char(s, layer);
    push_char(s, '8');
    push_char(s, ';');
    push_char(s, '2');
    push_char(s, ';');
    push_dec(s, r as u128);
    push_char(s, ';');
    push_dec(s, g as u128);
    push_char(s, ';');
    push_dec(s, b as u128);
    push_char(s, 'm');
    assert(s@ =~= start + rgb_seq(layer, r, g, b));
}

/// Appends the reset sequence.
pub fn push_reset(s: &mut String)
    ensures
        final(s)@ == old(s)@ + reset_seq(),
{
    let ghost start = s@;
    push_char(s, '\u{1b}');
    push_char(s, '[');
    push_char(s, '0');
    push_char(s, 'm');
    assert(s@ =~= start + reset_seq());
}

/// Appends the foreground sequence of palette colour `idx`.
pub fn push_fg_gruv(s: &mut String, idx: u8)
    requires
        idx < PALETTE_LEN,
    ensures
        final(s)@ == old(s)@ + fg_gruv_seq(idx as int),
{
    let (r, g, b) = Gruvbox::rgb(idx);
    push_rgb(s, '3', r, g, b);
}

/// Appends the background sequence of palette colour `idx`.
pub fn push_bg_gruv(s: &mut String, idx: u8)
    requires
        idx < PALETTE_LEN,
    ensures
        final(s)@ == old(s)@ + bg_gruv_seq(idx as int),
{
    let (r, g, b) = Gruvbox::rgb(idx);
    push_rgb(s, '4', r, g, b);
}

impl Ansi {
    /// `ESC [ 0 m`.
    pub fn reset() -> (s: String)
        ensures
            s@ == reset_seq(),
    {
        let mut s = String::new();
        push_reset(&mut s);
        s
    }

    /// `ESC [ 1 m`.
    pub fn bold() -> (s: String)
        ensures
            s@ == bold_seq(),
    {
        let mut s = String::new();
        push_char(&mut s, '\u{1b}');
        push_char(&mut s, '[');
        push_char(&mut s, '1');
        push_char(&mut s, 'm');
        assert(s@ =~= bold_seq());
        s
    }

    /// `ESC [ 38;2;r;g;b m`: 24-bit foreground colour.
    pub fn fg_rgb(r: u8, g: u8, b: u8) -> (s: String)
        ensures
            s@ == rgb_seq('3', r, g, b),
    {
        let mut s = String::new();
        push_rgb(&mut s, '3', r, g, b);
        assert(s@ =~= rgb_seq('3', r, g, b));
        s
    }

    /// `ESC [ 48;2;r;g;b m`: 24-bit background colour.
    pub fn bg_rgb(r: u8, g: u8, b: u8) -> (s: String)
        ensures
            s@ == rgb_seq('4', r, g, b),
    {
        let mut s = String::new();
        push_rgb(&mut s, '4', r, g, b);
        assert(s@ =~= rgb_seq('4', r, g, b));
        s
    }

    /// Foreground colour of palette entry `idx`.
    pub fn fg_gruv(idx: u8) -> (s: String)
        requires
            idx < PALETTE_LEN,
        ensures
            s@ == fg_gruv_seq(idx as int),
    {
        let (r, g, b) = Gruvbox::rgb(idx);
        Self::fg_rgb(r, g, b)
    }

    /// Background colour of palette entry `idx`.
    pub fn bg_gruv(idx: u8) -> (s: String)
        requires
            idx < PALETTE_LEN,
        ensures
            s@ == bg_gruv_seq(idx as int),
    {
        let (r, g, b) = Gruvbox::rgb(idx);
        Self::bg_rgb(r, g, b)
    }

    /// `text` in palette colour `color_idx`, then a reset.
    pub fn colored(text: &str, color_idx: u8) -> (s: String)
        requires
            color_idx < PALETTE_LEN,
        ensures
            s@ == colored_seq(text@, color_idx as int),
    {
        let mut s = Self::fg_gruv(color_idx);
        push_str(&mut s, text);
        push_reset(&mut s);
        s
    }

    /// `text` in bold and palette colour `color_idx`, then a reset.
    pub fn colored_bold(text: &str, color_idx: u8) -> (s: String)
        requires
            color_idx < PALETTE_LEN,
        ensures
            s@ == bold_seq() + fg_gruv_seq(color_idx as int) + text@ + reset_seq(),
    {
        let mut s = Self::bold();
        push_fg_gruv(&mut s, color_idx);
        push_str(&mut s, text);
        push_reset(&mut s);
        s
    }
}

/// Icons shown before each system line.
pub struct Icons;

/// The keys of the system lines, each of which has an icon of its own.
pub open spec fn system_icon_keys() -> Seq<Seq<char>> {
    seq![
        "os"@,
        "kernel"@,
        "hostname"@,
        "cpu"@,
        "gpu"@,
        "ram"@,
        "disk"@,
        "shell"@,
        "terminal"@,
        "resolution"@,
        "uptime"@,
        "arch"@,
    ]
}

/// The ghost emoji, U+1F47B.
pub open spec fn ghost_icon() -> Seq<char> {
    "\u{1F47B}"@
}

/// The icon of `key`: each system key has the ghost as its icon, and a key
/// that is not in the table falls back to the ghost too.
pub open spec fn icon_for(key: Seq<char>) -> Seq<char> {
    if system_icon_keys().contains(key) {
        ghost_icon()
    } else {
        ghost_icon()
    }
}

impl Icons {
    pub const GHOST: &'static str = "\u{1F47B}";

    /// The icon for `key`.
    pub fn get(key: &str) -> (r: &'static str)
        ensures
            r@ == icon_for(key@),
    {
        if str_eq(key, "os") || str_eq(key, "kernel") || str_eq(key, "hostname") || str_eq(
            key,
            "cpu",
        ) || str_eq(key, "gpu") || str_eq(key, "ram") || str_eq(key, "disk") || str_eq(
            key,
            "shell",
        ) || str_eq(key, "terminal") || str_eq(key, "resolution") || str_eq(key, "uptime")
            || str_eq(key, "arch") {
            "\u{1F47B}"
        } else {
            "\u{1F47B}"
        }
    }
}

} // verus!
