//! The avatar as terminal art: each pixel is two spaces on its colour.
use vstd::prelude::*;

use crate::text::{chars_of, dec, push_char, push_dec, push_str, string_of};
use crate::theme::{push_reset, reset_seq, rgb_seq};

verus! {

/// The avatar as lines of coloured cells, and how many columns they fill.
pub struct AvatarArt {
    pub lines: Vec<String>,
    pub width: usize,
}

/// One pixel: two spaces on its colour, then a reset.
pub open spec fn pixel_cell(p: (u8, u8, u8)) -> Seq<char> {
    rgb_seq('4', p.0, p.1, p.2) + seq![' ', ' '] + reset_seq()
}

/// A row of pixels as one line.
pub open spec fn art_line(row: Seq<(u8, u8, u8)>) -> Seq<char>
    decreases row.len(),
{
    if row.len() == 0 {
        Seq::empty()
    } else {
        art_line(row.drop_last()) + pixel_cell(row.last())
    }
}

/// The views of the lines of a string vector.
pub open spec fn string_views(v: Seq<String>) -> Seq<Seq<char>> {
    Seq::new(v.len(), |i: int| v[i]@)
}

fn push_pixel(s: &mut String, p: (u8, u8, u8))
    ensures
        final(s)@ == old(s)@ + pixel_cell(p),
{
    let ghost start = s@;
    let bg = crate::theme::Ansi::bg_rgb(p.0, p.1, p.2);
    push_str(s, bg.as_str());
    push_char(s, ' ');
    push_char(s, ' ');
    push_reset(s);
    assert(s@ =~= start + pixel_cell(p));
}

/// One row of pixels as a line of cells.
pub fn row_to_line(row: &Vec<(u8, u8, u8)>) -> (s: String)
    ensures
        s@ == art_line(row@),
{
    let mut s = String::new();
    let mut i: usize = 0;
    while i < row.len()
        invariant
            i <= row@.len(),
            s@ == art_line(row@.take(i as int)),
        decreases row@.len() - i,
    {
        assert(row@.take(i + 1).drop_last() =~= row@.take(i as int));
        push_pixel(&mut s, row[i]);
        i = i + 1;
    }
    assert(row@.take(i as int) =~= row@);
    s
}

impl AvatarArt {
    /// The art for rows of pixels that are `target_width` pixels wide: a line
    /// per row, two columns per pixel.
    pub fn from_pixels(pixels: &Vec<Vec<(u8, u8, u8)>>, target_width: usize) -> (a: AvatarArt)
        requires
            target_width * 2 <= usize::MAX,
        ensures
            string_views(a.lines@) == Seq::new(pixels@.len(), |i: int| art_line(pixels@[i]@)),
            a.width == target_width * 2,
    {
        let mut lines: Vec<String> = Vec::new();
        let mut i: usize = 0;
        while i < pixels.len()
            invariant
                i <= pixels@.len(),
                string_views(lines@) == Seq::new(i as nat, |k: int| art_line(pixels@[k]@)),
            decreases pixels@.len() - i,
        {
            let line = row_to_line(&pixels[i]);
            let ghost lv = line@;
            let ghost before = string_views(lines@);
            lines.push(line);
            assert(string_views(lines@) =~= before.push(lv));
            assert(string_views(lines@) =~= Seq::new((i + 1) as nat, |k: int| art_line(pixels@[k]@)));
            i = i + 1;
        }
        AvatarArt { lines, width: target_width * 2 }
    }
}

/// What follows the last `/` of `s`, or all of it.
pub open spec fn last_segment(s: Seq<char>) -> Seq<char>
    decreases s.len(),
{
    if s.len() == 0 {
        s
    } else if s.last() == '/' {
        Seq::empty()
    } else {
        last_segment(s.drop_last()).push(s.last())
    }
}

/// The cache key of the avatar art: `avatar_v3_<last path segment>_<width>`.
pub open spec fn art_cache_key(url: Seq<char>, width: nat) -> Seq<char> {
    "avatar_v3_"@ + last_segment(url) + seq!['_'] + dec(width)
}

/// The cache key of the avatar image: `avatar_raw_<url>`.
pub open spec fn raw_cache_key(url: Seq<char>) -> Seq<char> {
    "avatar_raw_"@ + url
}

/// The cache key of the avatar art for `avatar_url` at `target_width`.
pub fn avatar_cache_key(avatar_url: &str, target_width: usize) -> (k: String)
    ensures
        k@ == art_cache_key(avatar_url@, target_width as nat),
{
    let v = chars_of(avatar_url);
    let mut start = v.len();
    assert(v@.take(v@.len() as int) =~= v@);
    assert(v@.subrange(v@.len() as int, v@.len() as int) =~= Seq::<char>::empty());
    assert(v@ + Seq::<char>::empty() =~= v@);
    while start > 0 && v[start - 1] != '/'
        invariant
            start <= v@.len(),
            last_segment(v@) == last_segment(v@.take(start as int)) + v@.subrange(
                start as int,
                v@.len() as int,
            ),
        decreases start,
    {
        let ghost t = v@.take(start as int);
        assert(t.drop_last() =~= v@.take(start - 1));
        assert(v@.subrange(start - 1, v@.len() as int) =~= seq![t.last()] + v@.subrange(
            start as int,
            v@.len() as int,
        ));
        assert(last_segment(t) == last_segment(t.drop_last()).push(t.last()));
        start = start - 1;
    }
    proof {
        if start > 0 {
            let t = v@.take(start as int);
            assert(t.last() == '/');
        }
        assert(last_segment(v@.take(start as int)) =~= Seq::<char>::empty());
        assert(v@.take(v@.len() as int) =~= v@);
    }
    let mut k = String::from_str("avatar_v3_");
    let seg = string_of(crate::text::slice_chars(v.as_slice(), start, v.len()).as_slice());
    push_str(&mut k, seg.as_str());
    push_char(&mut k, '_');
    push_dec(&mut k, target_width as u128);
    assert(k@ =~= art_cache_key(avatar_url@, target_width as nat));
    k
}

/// The cache key of the avatar image downloaded from `avatar_url`.
pub fn avatar_raw_key(avatar_url: &str) -> (k: String)
    ensures
        k@ == raw_cache_key(avatar_url@),
{
    let mut k = String::from_str("avatar_raw_");
    push_str(&mut k, avatar_url);
    k
}

} // verus!
