//! Reading what the system's own tools print: the graphics card and the
//! screen resolution as `lspci`, `xrandr`, `system_profiler` and `wmic`
//! report them, the shell's name, and the disk that holds a directory.
use vstd::prelude::*;

use crate::avatar::last_segment;
use crate::text::{
    chars_of, contains, dec, ends_with, find_chars, lines, parse_signed, parse_i32_chars,
    parse_unsigned, parse_unsigned_chars, push_char, push_dec, slice_chars, split_lines,
    split_on, split_on_char, split_words, starts_with, starts_with_chars, string_of, trim,
    trim_chars, trim_start_matches, trim_start_matching, views, words,
};

verus! {

/// How one line of a tool's output is read.
pub enum LineReader {
    Lspci,
    Keyed(Seq<char>),
    WmicName,
    Xrandr,
    WmicResolution,
}

/// What `r` finds in line `l`.
pub open spec fn read_line(r: LineReader, l: Seq<char>) -> Option<Seq<char>> {
    match r {
        LineReader::Lspci => lspci_line(l),
        LineReader::Keyed(key) => keyed_line(l, key),
        LineReader::WmicName => wmic_name_line(l),
        LineReader::Xrandr => xrandr_line(l),
        LineReader::WmicResolution => wmic_resolution_line(l),
    }
}

/// The first line, in order, in which `r` finds something, with what it
/// finds.
pub open spec fn first_hit(ls: Seq<Seq<char>>, r: LineReader) -> Option<Seq<char>>
    decreases ls.len(),
{
    if ls.len() == 0 {
        None
    } else {
        match read_line(r, ls[0]) {
            Some(x) => Some(x),
            None => first_hit(ls.drop_first(), r),
        }
    }
}

/// What was found, or `Unknown`.
pub open spec fn or_unknown(r: Option<Seq<char>>) -> Seq<char> {
    match r {
        Some(x) => x,
        None => "Unknown"@,
    }
}

proof fn lemma_first_hit_step(ls: Seq<Seq<char>>, i: int, f: LineReader)
    requires
        0 <= i < ls.len(),
    ensures
        first_hit(ls.skip(i), f) == match read_line(f, ls[i]) {
            Some(x) => Some(x),
            None => first_hit(ls.skip(i + 1), f),
        },
{
    assert(ls.skip(i)[0] == ls[i]);
    assert(ls.skip(i).drop_first() =~= ls.skip(i + 1));
}

fn unknown() -> (s: String)
    ensures
        s@ == "Unknown"@,
{
    String::from_str("Unknown")
}

// ---------------------------------------------------------------------------
// Graphics card
// ---------------------------------------------------------------------------
/// A line of `lspci -mm` that names a display controller (`VGA`, `3D` or
/// `Display`) yields its fourth `"`-separated field, trimmed, if not
/// empty, without leading `Intel Corporation `.
pub open spec fn lspci_line(l: Seq<char>) -> Option<Seq<char>> {
    if contains(l, "VGA"@) || contains(l, "3D"@) || contains(l, "Display"@) {
        let parts = split_on(l, '"');
        if parts.len() >= 4 && trim(parts[3]).len() > 0 {
            Some(trim_start_matches(trim(parts[3]), "Intel Corporation "@))
        } else {
            None
        }
    } else {
        None
    }
}

/// A line that, trimmed, starts with `key` yields the rest, trimmed.
pub open spec fn keyed_line(l: Seq<char>, key: Seq<char>) -> Option<Seq<char>> {
    let t = trim(l);
    if starts_with(t, key) {
        Some(trim(t.skip(key.len() as int)))
    } else {
        None
    }
}

/// `s` equals `name` ignoring ASCII case.
pub open spec fn is_name_header(s: Seq<char>) -> bool {
    &&& s.len() == 4
    &&& (s[0] == 'n' || s[0] == 'N')
    &&& (s[1] == 'a' || s[1] == 'A')
    &&& (s[2] == 'm' || s[2] == 'M')
    &&& (s[3] == 'e' || s[3] == 'E')
}

/// A line of `wmic ... get name` yields itself, trimmed, unless it is empty
/// or the `Name` header.
pub open spec fn wmic_name_line(l: Seq<char>) -> Option<Seq<char>> {
    let t = trim(l);
    if t.len() > 0 && !is_name_header(t) {
        Some(t)
    } else {
        None
    }
}

/// The lines after the first.
pub open spec fn after_first(ls: Seq<Seq<char>>) -> Seq<Seq<char>> {
    if ls.len() > 0 {
        ls.drop_first()
    } else {
        ls
    }
}

fn lspci_line_exec(l: &Vec<char>) -> (r: Option<Vec<char>>)
    ensures
        r matches Some(x) ==> lspci_line(l@) == Some(x@),
        r is None ==> lspci_line(l@) is None,
{
    let vga = chars_of("VGA");
    let d3 = chars_of("3D");
    let disp = chars_of("Display");
    if find_chars(l.as_slice(), vga.as_slice(), 0).is_some() || find_chars(
        l.as_slice(),
        d3.as_slice(),
        0,
    ).is_some() || find_chars(l.as_slice(), disp.as_slice(), 0).is_some() {
        let parts = split_on_char(l.as_slice(), '"');
        if parts.len() >= 4 {
            assert(views(parts@)[3] == parts@[3]@);
            let g = trim_chars(parts[3].as_slice());
            if g.len() > 0 {
                let intel = chars_of("Intel Corporation ");
                proof {
                    reveal_strlit("Intel Corporation ");
                }
                return Some(trim_start_matching(g.as_slice(), intel.as_slice()));
            }
        }
    }
    None
}

/// The graphics card named in the output of `lspci -mm`, or `Unknown`.
pub fn gpu_from_lspci(out: &str) -> (r: String)
    ensures
        r@ == or_unknown(first_hit(lines(out@), LineReader::Lspci)),
{
    let v = chars_of(out);
    let ls = split_lines(v.as_slice());
    let mut i: usize = 0;
    assert(views(ls@).skip(0) =~= views(ls@));
    while i < ls.len()
        invariant
            i <= ls@.len(),
            views(ls@) == lines(out@),
            first_hit(lines(out@), LineReader::Lspci) == first_hit(views(ls@).skip(i as int), LineReader::Lspci),
        decreases ls@.len() - i,
    {
        proof {
            lemma_first_hit_step(views(ls@), i as int, LineReader::Lspci);
        }
        assert(views(ls@)[i as int] == ls@[i as int]@);
        if let Some(g) = lspci_line_exec(&ls[i]) {
            return string_of(g.as_slice());
        }
        i = i + 1;
    }
    assert(views(ls@).skip(i as int).len() == 0);
    unknown()
}

fn keyed_line_exec(l: &Vec<char>, key: &Vec<char>) -> (r: Option<Vec<char>>)
    ensures
        r matches Some(x) ==> keyed_line(l@, key@) == Some(x@),
        r is None ==> keyed_line(l@, key@) is None,
{
    let t = trim_chars(l.as_slice());
    if starts_with_chars(t.as_slice(), key.as_slice()) {
        let rest = slice_chars(t.as_slice(), key.len(), t.len());
        assert(rest@ =~= t@.skip(key@.len() as int));
        Some(trim_chars(rest.as_slice()))
    } else {
        None
    }
}

fn keyed_value(out: &str, key: &str) -> (r: String)
    ensures
        r@ == or_unknown(first_hit(lines(out@), LineReader::Keyed(key@))),
{
    let k = chars_of(key);
    let v = chars_of(out);
    let ls = split_lines(v.as_slice());
    let mut i: usize = 0;
    assert(views(ls@).skip(0) =~= views(ls@));
    while i < ls.len()
        invariant
            i <= ls@.len(),
            k@ == key@,
            views(ls@) == lines(out@),
            first_hit(lines(out@), LineReader::Keyed(key@)) == first_hit(views(ls@).skip(i as int), LineReader::Keyed(key@)),
        decreases ls@.len() - i,
    {
        proof {
            lemma_first_hit_step(views(ls@), i as int, LineReader::Keyed(key@));
        }
        assert(views(ls@)[i as int] == ls@[i as int]@);
        if let Some(g) = keyed_line_exec(&ls[i], &k) {
            return string_of(g.as_slice());
        }
        i = i + 1;
    }
    assert(views(ls@).skip(i as int).len() == 0);
    unknown()
}

/// The graphics card in the output of `system_profiler SPDisplaysDataType`,
/// from its `Chipset Model:` line, or `Unknown`.
pub fn gpu_from_system_profiler(out: &str) -> (r: String)
    ensures
        r@ == or_unknown(
            first_hit(lines(out@), LineReader::Keyed("Chipset Model:"@)),
        ),
{
    keyed_value(out, "Chipset Model:")
}

fn is_name_exec(t: &Vec<char>) -> (r: bool)
    ensures
        r == is_name_header(t@),
{
    t.len() == 4 && (t[0] == 'n' || t[0] == 'N') && (t[1] == 'a' || t[1] == 'A') && (t[2] == 'm'
        || t[2] == 'M') && (t[3] == 'e' || t[3] == 'E')
}

/// The graphics card in the output of
/// `wmic path win32_videocontroller get name`: the first non-empty line
/// after the header that is not `Name`, or `Unknown`.
pub fn gpu_from_wmic(out: &str) -> (r: String)
    ensures
        r@ == or_unknown(first_hit(after_first(lines(out@)), LineReader::WmicName)),
{
    let v = chars_of(out);
    let ls = split_lines(v.as_slice());
    if ls.len() == 0 {
        return unknown();
    }
    let mut i: usize = 1;
    assert(views(ls@).skip(1) =~= after_first(lines(out@)));
    while i < ls.len()
        invariant
            1 <= i <= ls@.len(),
            views(ls@) == lines(out@),
            first_hit(after_first(lines(out@)), LineReader::WmicName) == first_hit(views(ls@).skip(i as int), LineReader::WmicName),
        decreases ls@.len() - i,
    {
        proof {
            lemma_first_hit_step(views(ls@), i as int, LineReader::WmicName);
        }
        assert(views(ls@)[i as int] == ls@[i as int]@);
        let t = trim_chars(ls[i].as_slice());
        if t.len() > 0 && !is_name_exec(&t) {
            return string_of(t.as_slice());
        }
        i = i + 1;
    }
    assert(views(ls@).skip(i as int).len() == 0);
    unknown()
}

// ---------------------------------------------------------------------------
// Resolution
// ---------------------------------------------------------------------------
/// Among the words of a connected output line of `xrandr`, from index `i`
/// on: the first word holding both `x` and `+` whose previous word neither
/// ends with `x` nor reads as an `i32`, up to its first `+`.
pub open spec fn xrandr_mode(parts: Seq<Seq<char>>, i: int) -> Option<Seq<char>>
    decreases parts.len() - i,
{
    if i < 0 || i >= parts.len() {
        None
    } else {
        let p = parts[i];
        if contains(p, seq!['x']) && contains(p, seq!['+']) {
            let prev = if i > 0 {
                parts[i - 1]
            } else {
                Seq::empty()
            };
            if ends_with(prev, seq!['x']) || parse_signed(prev, i32::MIN as int, i32::MAX as int)
                is Some {
                xrandr_mode(parts, i + 1)
            } else {
                Some(split_on(p, '+')[0])
            }
        } else {
            xrandr_mode(parts, i + 1)
        }
    }
}

/// A line of `xrandr` for a connected output yields its mode.
pub open spec fn xrandr_line(l: Seq<char>) -> Option<Seq<char>> {
    if contains(l, " connected"@) && !contains(l, "disconnected"@) {
        xrandr_mode(words(l), 0)
    } else {
        None
    }
}

fn ends_with_x(p: &Vec<char>) -> (r: bool)
    ensures
        r == ends_with(p@, seq!['x']),
{
    if p.len() > 0 && p[p.len() - 1] == 'x' {
        assert(p@.skip(p@.len() - 1) =~= seq!['x']);
        true
    } else {
        proof {
            if p@.len() > 0 {
                assert(p@.skip(p@.len() - 1)[0] == p@[p@.len() - 1]);
            }
        }
        false
    }
}

fn xrandr_line_exec(l: &Vec<char>) -> (r: Option<Vec<char>>)
    ensures
        r matches Some(x) ==> xrandr_line(l@) == Some(x@),
        r is None ==> xrandr_line(l@) is None,
{
    let conn = chars_of(" connected");
    let disc = chars_of("disconnected");
    if find_chars(l.as_slice(), conn.as_slice(), 0).is_none() || find_chars(
        l.as_slice(),
        disc.as_slice(),
        0,
    ).is_some() {
        return None;
    }
    let parts = split_words(l.as_slice());
    let x = vec!['x'];
    let plus = vec!['+'];
    assert(x@ =~= seq!['x']);
    assert(plus@ =~= seq!['+']);
    let mut i: usize = 0;
    while i < parts.len()
        invariant
            i <= parts@.len(),
            views(parts@) == words(l@),
            x@ == seq!['x'],
            plus@ == seq!['+'],
            xrandr_line(l@) == xrandr_mode(views(parts@), i as int),
        decreases parts@.len() - i,
    {
        let p = &parts[i];
        if find_chars(p.as_slice(), x.as_slice(), 0).is_some() && find_chars(
            p.as_slice(),
            plus.as_slice(),
            0,
        ).is_some() {
            let skip = if i > 0 {
                let prev = &parts[i - 1];
                ends_with_x(prev) || parse_i32_chars(prev.as_slice()).is_some()
            } else {
                let e: Vec<char> = Vec::new();
                assert(e@ =~= Seq::<char>::empty());
                ends_with_x(&e) || parse_i32_chars(e.as_slice()).is_some()
            };
            if !skip {
                let pieces = split_on_char(p.as_slice(), '+');
                proof {
                    crate::text::lemma_split_on_nonempty(p@, '+');
                }
                assert(views(pieces@)[0] == pieces@[0]@);
                return Some(slice_chars(pieces[0].as_slice(), 0, pieces[0].len()));
            }
        }
        i = i + 1;
    }
    None
}

/// The resolution in the output of `xrandr`: the mode of the first
/// connected output that has one, or `Unknown`.
pub fn resolution_from_xrandr(out: &str) -> (r: String)
    ensures
        r@ == or_unknown(first_hit(lines(out@), LineReader::Xrandr)),
{
    let v = chars_of(out);
    let ls = split_lines(v.as_slice());
    let mut i: usize = 0;
    assert(views(ls@).skip(0) =~= views(ls@));
    while i < ls.len()
        invariant
            i <= ls@.len(),
            views(ls@) == lines(out@),
            first_hit(lines(out@), LineReader::Xrandr) == first_hit(views(ls@).skip(i as int), LineReader::Xrandr),
        decreases ls@.len() - i,
    {
        proof {
            lemma_first_hit_step(views(ls@), i as int, LineReader::Xrandr);
        }
        assert(views(ls@)[i as int] == ls@[i as int]@);
        if let Some(g) = xrandr_line_exec(&ls[i]) {
            return string_of(g.as_slice());
        }
        i = i + 1;
    }
    assert(views(ls@).skip(i as int).len() == 0);
    unknown()
}

/// The resolution in the output of `system_profiler SPDisplaysDataType`,
/// from its `Resolution:` line, or `Unknown`.
pub fn resolution_from_system_profiler(out: &str) -> (r: String)
    ensures
        r@ == or_unknown(first_hit(lines(out@), LineReader::Keyed("Resolution:"@))),
{
    keyed_value(out, "Resolution:")
}

/// A line of `wmic ... get CurrentHorizontalResolution,CurrentVerticalResolution`
/// whose first two words read as `u32`s yields `<width>x<height>`.
pub open spec fn wmic_resolution_line(l: Seq<char>) -> Option<Seq<char>> {
    let parts = words(l);
    if parts.len() >= 2 {
        match (parse_unsigned(parts[0], u32::MAX as nat), parse_unsigned(parts[1], u32::MAX as nat)) {
            (Some(w), Some(h)) => Some(dec(w) + seq!['x'] + dec(h)),
            _ => None,
        }
    } else {
        None
    }
}

fn wmic_resolution_line_exec(l: &Vec<char>) -> (r: Option<String>)
    ensures
        r matches Some(x) ==> wmic_resolution_line(l@) == Some(x@),
        r is None ==> wmic_resolution_line(l@) is None,
{
    let parts = split_words(l.as_slice());
    if parts.len() >= 2 {
        assert(views(parts@)[0] == parts@[0]@);
        assert(views(parts@)[1] == parts@[1]@);
        let w = parse_unsigned_chars(parts[0].as_slice(), u32::MAX as u64);
        let h = parse_unsigned_chars(parts[1].as_slice(), u32::MAX as u64);
        match (w, h) {
            (Some(w), Some(h)) => {
                let mut s = String::new();
                push_dec(&mut s, w as u128);
                push_char(&mut s, 'x');
                push_dec(&mut s, h as u128);
                assert(s@ =~= dec(w as nat) + seq!['x'] + dec(h as nat));
                Some(s)
            },
            _ => None,
        }
    } else {
        None
    }
}

/// The resolution in the output of `wmic`: from the first line after the
/// header with two numbers, or `Unknown`.
pub fn resolution_from_wmic(out: &str) -> (r: String)
    ensures
        r@ == or_unknown(
            first_hit(after_first(lines(out@)), LineReader::WmicResolution),
        ),
{
    let v = chars_of(out);
    let ls = split_lines(v.as_slice());
    if ls.len() == 0 {
        return unknown();
    }
    let mut i: usize = 1;
    assert(views(ls@).skip(1) =~= after_first(lines(out@)));
    while i < ls.len()
        invariant
            1 <= i <= ls@.len(),
            views(ls@) == lines(out@),
            first_hit(after_first(lines(out@)), LineReader::WmicResolution) == first_hit(views(ls@).skip(i as int), LineReader::WmicResolution),
        decreases ls@.len() - i,
    {
        proof {
            lemma_first_hit_step(views(ls@), i as int, LineReader::WmicResolution);
        }
        assert(views(ls@)[i as int] == ls@[i as int]@);
        if let Some(g) = wmic_resolution_line_exec(&ls[i]) {
            return g;
        }
        i = i + 1;
    }
    assert(views(ls@).skip(i as int).len() == 0);
    unknown()
}

// ---------------------------------------------------------------------------
// Shell and disk
// ---------------------------------------------------------------------------
/// The shell's name: the last `/`-separated piece of `$SHELL`.
pub fn shell_name(shell_var: &str) -> (r: String)
    ensures
        r@ == last_segment(shell_var@),
{
    let v = chars_of(shell_var);
    let mut start = v.len();
    assert(v@.take(v@.len() as int) =~= v@);
    assert(v@.subrange(v@.len() as int, v@.len() as int) =~= Seq::<char>::empty());
    assert(v@ + Seq::<char>::empty() =~= v@);
    while start > 0 && v[start - 1] != '/'
        invariant
            start <= v@.len(),
            last_segment(v@) == last_segment(v@.take(start as int)) + v@.subrange(
                start as int,
                v@.len() as int,
            ),
        decreases start,
    {
        let ghost t = v@.take(start as int);
        assert(t.drop_last() =~= v@.take(start - 1));
        assert(v@.subrange(start - 1, v@.len() as int) =~= seq![t.last()] + v@.subrange(
            start as int,
            v@.len() as int,
        ));
        assert(last_segment(t) == last_segment(t.drop_last()).push(t.last()));
        start = start - 1;
    }
    proof {
        if start > 0 {
            let t = v@.take(start as int);
            assert(t.last() == '/');
        }
        assert(last_segment(v@.take(start as int)) =~= Seq::<char>::empty());
    }
    string_of(slice_chars(v.as_slice(), start, v.len()).as_slice())
}

/// A disk: where it is mounted and its total and available bytes.
pub struct DiskSpace {
    pub mount_point: String,
    pub total_space: u64,
    pub available_space: u64,
}

/// The pieces that are neither empty nor `.`.
pub open spec fn normal_pieces(p: Seq<Seq<char>>) -> Seq<Seq<char>>
    decreases p.len(),
{
    if p.len() == 0 {
        Seq::empty()
    } else if p.last().len() > 0 && p.last() != seq!['.'] {
        normal_pieces(p.drop_last()).push(p.last())
    } else {
        normal_pieces(p.drop_last())
    }
}

/// The components of a Unix path, as `Path::components` gives them: `/`
/// first for an absolute path, `.` first for a relative path that starts
/// with it, then every piece between slashes that is neither empty nor `.`.
pub open spec fn path_components(s: Seq<char>) -> Seq<Seq<char>> {
    let pieces = split_on(s, '/');
    let lead = if s.len() > 0 && s[0] == '/' {
        seq![seq!['/']]
    } else if pieces[0] == seq!['.'] {
        seq![seq!['.']]
    } else {
        Seq::empty()
    };
    lead + normal_pieces(pieces)
}

/// `Path::starts_with`: the components of `base` begin those of `path`.
pub open spec fn path_starts_with(path: Seq<char>, base: Seq<char>) -> bool {
    let a = path_components(path);
    let b = path_components(base);
    b.len() <= a.len() && a.take(b.len() as int) == b
}

/// The index of the first disk whose mount point holds `cwd`.
pub open spec fn disk_index(cwd: Seq<char>, disks: Seq<DiskSpace>, i: int) -> Option<int>
    decreases disks.len() - i,
{
    if i < 0 || i >= disks.len() {
        None
    } else if path_starts_with(cwd, disks[i].mount_point@) {
        Some(i)
    } else {
        disk_index(cwd, disks, i + 1)
    }
}

fn components(v: &Vec<char>) -> (r: Vec<Vec<char>>)
    ensures
        views(r@) == path_components(v@),
{
    let pieces = split_on_char(v.as_slice(), '/');
    proof {
        crate::text::lemma_split_on_nonempty(v@, '/');
    }
    let mut r: Vec<Vec<char>> = Vec::new();
    assert(views(pieces@)[0] == pieces@[0]@);
    if v.len() > 0 && v[0] == '/' {
        let slash = vec!['/'];
        assert(slash@ =~= seq!['/']);
        r.push(slash);
        assert(views(r@) =~= seq![seq!['/']]);
    } else if pieces[0].len() == 1 && pieces[0][0] == '.' {
        assert(pieces@[0]@ =~= seq!['.']);
        let dot = vec!['.'];
        assert(dot@ =~= seq!['.']);
        r.push(dot);
        assert(views(r@) =~= seq![seq!['.']]);
    } else {
        assert(views(pieces@)[0] == pieces@[0]@);
        assert(pieces@[0]@ != seq!['.']) by {
            if pieces@[0]@ == seq!['.'] {
                assert(pieces@[0]@.len() == 1);
            }
        }
    }
    let ghost lead = views(r@);
    assert(views(r@) =~= (if v@.len() > 0 && v@[0] == '/' {
        seq![seq!['/']]
    } else if split_on(v@, '/')[0] == seq!['.'] {
        seq![seq!['.']]
    } else {
        Seq::<Seq<char>>::empty()
    }));
    let mut i: usize = 0;
    assert(views(pieces@).take(0) =~= Seq::<Seq<char>>::empty());
    while i < pieces.len()
        invariant
            i <= pieces@.len(),
            views(r@) == lead + normal_pieces(views(pieces@).take(i as int)),
        decreases pieces@.len() - i,
    {
        let ghost t = views(pieces@).take(i + 1);
        assert(t.drop_last() =~= views(pieces@).take(i as int));
        assert(t.last() == pieces@[i as int]@);
        let p = &pieces[i];
        let dot = p.len() == 1 && p[0] == '.';
        assert(dot == (p@ == seq!['.'])) by {
            if p@ == seq!['.'] {
                assert(p@.len() == 1);
            }
            if dot {
                assert(p@ =~= seq!['.']);
            }
        }
        if p.len() > 0 && !dot {
            let ghost before = views(r@);
            let copy = slice_chars(p.as_slice(), 0, p.len());
            assert(copy@ =~= p@);
            r.push(copy);
            assert(views(r@) =~= before.push(p@));
        }
        i = i + 1;
    }
    assert(views(pieces@).take(i as int) =~= views(pieces@));
    r
}

fn same_chars(a: &Vec<char>, b: &Vec<char>) -> (r: bool)
    ensures
        r == (a@ == b@),
{
    if a.len() != b.len() {
        return false;
    }
    let mut i: usize = 0;
    while i < a.len()
        invariant
            a@.len() == b@.len(),
            i <= a@.len(),
            forall|j: int| 0 <= j < i ==> a@[j] == b@[j],
        decreases a@.len() - i,
    {
        if a[i] != b[i] {
            return false;
        }
        i = i + 1;
    }
    assert(a@ =~= b@);
    true
}

fn path_starts_with_exec(path: &Vec<char>, base: &Vec<char>) -> (r: bool)
    ensures
        r == path_starts_with(path@, base@),
{
    let a = components(path);
    let b = components(base);
    assert(views(a@).len() == a@.len());
    assert(views(b@).len() == b@.len());
    if b.len() > a.len() {
        return false;
    }
    let mut i: usize = 0;
    while i < b.len()
        invariant
            b@.len() <= a@.len(),
            i <= b@.len(),
            views(a@) == path_components(path@),
            views(b@) == path_components(base@),
            forall|j: int| 0 <= j < i ==> views(a@)[j] == views(b@)[j],
        decreases b@.len() - i,
    {
        assert(views(a@)[i as int] == a@[i as int]@);
        assert(views(b@)[i as int] == b@[i as int]@);
        if !same_chars(&a[i], &b[i]) {
            assert(views(a@).take(b@.len() as int)[i as int] != views(b@)[i as int]);
            assert(views(a@).take(b@.len() as int) != views(b@));
            return false;
        }
        i = i + 1;
    }
    assert(views(a@).take(b@.len() as int) =~= views(b@));
    true
}

proof fn lemma_disk_index_bound(cwd: Seq<char>, disks: Seq<DiskSpace>, i: int)
    ensures
        disk_index(cwd, disks, i) matches Some(k) ==> 0 <= k < disks.len(),
    decreases disks.len() - i,
{
    if 0 <= i < disks.len() && !path_starts_with(cwd, disks[i].mount_point@) {
        lemma_disk_index_bound(cwd, disks, i + 1);
    }
}

/// The first disk whose mount point holds `cwd`.
pub fn mounted_disk(cwd: &str, disks: &Vec<DiskSpace>) -> (r: Option<usize>)
    ensures
        r matches Some(k) ==> disk_index(cwd@, disks@, 0) == Some(k as int),
        r is None ==> disk_index(cwd@, disks@, 0) is None,
{
    let c = chars_of(cwd);
    let mut i: usize = 0;
    while i < disks.len()
        invariant
            i <= disks@.len(),
            c@ == cwd@,
            disk_index(cwd@, disks@, 0) == disk_index(cwd@, disks@, i as int),
        decreases disks@.len() - i,
    {
        let m = chars_of(disks[i].mount_point.as_str());
        if path_starts_with_exec(&c, &m) {
            return Some(i);
        }
        i = i + 1;
    }
    None
}

/// The disk's used and total bytes, or zeros when no disk holds `cwd`.
pub open spec fn disk_usage_of(cwd: Seq<char>, disks: Seq<DiskSpace>) -> (int, int) {
    match disk_index(cwd, disks, 0) {
        Some(k) => (disks[k].total_space - disks[k].available_space, disks[k].total_space as int),
        None => (0, 0),
    }
}

/// The disk that holds `cwd` reports no more available than total space.
pub open spec fn disk_usage_fits(cwd: Seq<char>, disks: Seq<DiskSpace>) -> bool {
    match disk_index(cwd, disks, 0) {
        Some(k) => disks[k].available_space <= disks[k].total_space,
        None => true,
    }
}

/// Used and total bytes of the disk that holds `cwd`.
pub fn disk_usage(cwd: &str, disks: &Vec<DiskSpace>) -> (r: (u64, u64))
    requires
        disk_usage_fits(cwd@, disks@),
    ensures
        (r.0 as int, r.1 as int) == disk_usage_of(cwd@, disks@),
{
    proof {
        lemma_disk_index_bound(cwd@, disks@, 0);
    }
    match mounted_disk(cwd, disks) {
        Some(k) => {
            let d = &disks[k];
            (d.total_space - d.available_space, d.total_space)
        },
        None => (0, 0),
    }
}

} // verus!
