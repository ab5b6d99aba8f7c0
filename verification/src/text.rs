//! Text primitives shared by the renderers and parsers: the character-level
//! model of strings (views as `Seq<char>`), decimal numerals, line splitting,
//! whitespace trimming, substring search, number parsing and ordering.
use vstd::prelude::*;

verus! {

// ---------------------------------------------------------------------------
// Building strings
// ---------------------------------------------------------------------------
/// `String::push`: the string gains the character at its end.
#[verifier::external_body]
pub fn push_char(s: &mut String, c: char)
    ensures
        final(s)@ == old(s)@.push(c),
{
    s.push(c);
}

/// Appends a string slice.
pub fn push_str(s: &mut String, t: &str)
    ensures
        final(s)@ == old(s)@ + t@,
{
    s.append(t);
}

/// The characters of a string slice, in order.
pub fn chars_of(s: &str) -> (r: Vec<char>)
    ensures
        r@ == s@,
{
    broadcast use vstd::string::group_string_axioms;

    let mut r: Vec<char> = Vec::new();
    for c in it: s.chars()
        invariant
            it.seq() == s@,
            r@ == s@.take(it.index() as int),
    {
        r.push(c);
        assert(s@.take(it.index() as int + 1) == s@.take(it.index() as int).push(c));
    }
    assert(s@.take(s@.len() as int) == s@);
    r
}

/// Appends every character of `v` to `s`.
pub fn push_chars(s: &mut String, v: &[char])
    ensures
        final(s)@ == old(s)@ + v@,
{
    let ghost start = s@;
    let mut i: usize = 0;
    while i < v.len()
        invariant
            i <= v@.len(),
            s@ == start + v@.take(i as int),
        decreases v@.len() - i,
    {
        push_char(s, v[i]);
        assert(v@.take(i as int + 1) == v@.take(i as int).push(v@[i as int]));
        i = i + 1;
    }
    assert(v@.take(v@.len() as int) == v@);
}

/// A string holding exactly the characters of `v`.
pub fn string_of(v: &[char]) -> (r: String)
    ensures
        r@ == v@,
{
    let mut r = String::new();
    push_chars(&mut r, v);
    r
}

/// The characters of `v` from index `a` up to (not including) `b`.
pub fn slice_chars(v: &[char], a: usize, b: usize) -> (r: Vec<char>)
    requires
        a <= b <= v@.len(),
    ensures
        r@ == v@.subrange(a as int, b as int),
{
    let mut r: Vec<char> = Vec::new();
    let mut i = a;
    while i < b
        invariant
            a <= i <= b <= v@.len(),
            r@ == v@.subrange(a as int, i as int),
        decreases b - i,
    {
        r.push(v[i]);
        assert(v@.subrange(a as int, i + 1) == v@.subrange(a as int, i as int).push(v@[i as int]));
        i = i + 1;
    }
    r
}

// ---------------------------------------------------------------------------
// Decimal numerals
// ---------------------------------------------------------------------------
/// The ASCII digit for `d` (`d < 10`).
pub open spec fn digit(d: nat) -> char {
    ((d + 48) as u8) as char
}

/// The decimal numeral of `n`, without sign or leading zeros ("0" for zero),
/// as `Display` writes an unsigned integer.
pub open spec fn dec(n: nat) -> Seq<char>
    decreases n,
{
    if n < 10 {
        seq![digit(n)]
    } else {
        dec(n / 10).push(digit(n % 10))
    }
}

fn digit_char(d: u128) -> (c: char)
    requires
        d < 10,
    ensures
        c == digit(d as nat),
{
    ((d as u8) + 48u8) as char
}

/// Appends the decimal numeral of `n`.
pub fn push_dec(s: &mut String, n: u128)
    ensures
        final(s)@ == old(s)@ + dec(n as nat),
    decreases n,
{
    if n >= 10 {
        push_dec(s, n / 10);
    }
    push_char(s, digit_char(n % 10));
}

// ---------------------------------------------------------------------------
// Whitespace and trimming
// ---------------------------------------------------------------------------
/// `char::is_whitespace`: the Unicode `White_Space` property.
pub open spec fn is_ws(c: char) -> bool {
    ||| c == '\t'
    ||| c == '\n'
    ||| c == '\u{0B}'
    ||| c == '\u{0C}'
    ||| c == '\r'
    ||| c == ' '
    ||| c == '\u{85}'
    ||| c == '\u{A0}'
    ||| c == '\u{1680}'
    ||| ('\u{2000}' <= c && c <= '\u{200A}')
    ||| c == '\u{2028}'
    ||| c == '\u{2029}'
    ||| c == '\u{202F}'
    ||| c == '\u{205F}'
    ||| c == '\u{3000}'
}

pub fn is_whitespace(c: char) -> (r: bool)
    ensures
        r == is_ws(c),
{
    c == '\t' || c == '\n' || c == '\u{0B}' || c == '\u{0C}' || c == '\r' || c == ' ' || c
        == '\u{85}' || c == '\u{A0}' || c == '\u{1680}' || ('\u{2000}' <= c && c <= '\u{200A}')
        || c == '\u{2028}' || c == '\u{2029}' || c == '\u{202F}' || c == '\u{205F}' || c
        == '\u{3000}'
}

/// `str::trim_start`.
pub open spec fn trim_start(s: Seq<char>) -> Seq<char>
    decreases s.len(),
{
    if s.len() > 0 && is_ws(s[0]) {
        trim_start(s.drop_first())
    } else {
        s
    }
}

/// `str::trim_end`.
pub open spec fn trim_end(s: Seq<char>) -> Seq<char>
    decreases s.len(),
{
    if s.len() > 0 && is_ws(s.last()) {
        trim_end(s.drop_last())
    } else {
        s
    }
}

/// `str::trim`: whitespace removed at both ends.
pub open spec fn trim(s: Seq<char>) -> Seq<char> {
    trim_end(trim_start(s))
}

proof fn lemma_trim_start_from(s: Seq<char>, i: int)
    requires
        0 <= i <= s.len(),
        forall|j: int| 0 <= j < i ==> is_ws(#[trigger] s[j]),
    ensures
        trim_start(s) == trim_start(s.subrange(i, s.len() as int)),
    decreases i,
{
    if i > 0 {
        assert(s.drop_first().subrange(i - 1, s.drop_first().len() as int) =~= s.subrange(
            i,
            s.len() as int,
        ));
        lemma_trim_start_from(s.drop_first(), i - 1);
    } else {
        assert(s.subrange(0, s.len() as int) =~= s);
    }
}

proof fn lemma_trim_end_to(s: Seq<char>, b: int)
    requires
        0 <= b <= s.len(),
        forall|j: int| b <= j < s.len() ==> is_ws(#[trigger] s[j]),
    ensures
        trim_end(s) == trim_end(s.subrange(0, b)),
    decreases s.len() - b,
{
    if b < s.len() {
        assert(s.drop_last().subrange(0, b) =~= s.subrange(0, b));
        lemma_trim_end_to(s.drop_last(), b);
    } else {
        assert(s.subrange(0, b) =~= s);
    }
}

/// The characters of `v` with whitespace removed at both ends.
pub fn trim_chars(v: &[char]) -> (r: Vec<char>)
    ensures
        r@ == trim(v@),
{
    let mut a: usize = 0;
    while a < v.len() && is_whitespace(v[a])
        invariant
            a <= v@.len(),
            forall|j: int| 0 <= j < a ==> is_ws(#[trigger] v@[j]),
        decreases v@.len() - a,
    {
        a = a + 1;
    }
    proof {
        lemma_trim_start_from(v@, a as int);
    }
    let ghost t = v@.subrange(a as int, v@.len() as int);
    assert(trim_start(t) == t);
    let mut b: usize = v.len();
    while b > a && is_whitespace(v[b - 1])
        invariant
            a <= b <= v@.len(),
            forall|j: int| b <= j < v@.len() ==> is_ws(#[trigger] v@[j]),
        decreases b,
    {
        b = b - 1;
    }
    proof {
        let tb = b - a;
        assert forall|j: int| tb <= j < t.len() implies is_ws(#[trigger] t[j]) by {
            assert(t[j] == v@[j + a]);
        }
        lemma_trim_end_to(t, tb as int);
        assert(t.subrange(0, tb as int) =~= v@.subrange(a as int, b as int));
    }
    slice_chars(v, a, b)
}

// ---------------------------------------------------------------------------
// Substring search
// ---------------------------------------------------------------------------
/// `pat` occurs in `s` at index `k`.
pub open spec fn matches_at(s: Seq<char>, pat: Seq<char>, k: int) -> bool {
    0 <= k && k + pat.len() <= s.len() && s.subrange(k, k + pat.len()) == pat
}

/// The first index at or after `i` where `pat` occurs in `s` (`str::find`
/// counted in characters).
pub open spec fn find_from(s: Seq<char>, pat: Seq<char>, i: int) -> Option<int>
    decreases s.len() + 1 - i,
{
    if i < 0 || i + pat.len() > s.len() {
        None
    } else if matches_at(s, pat, i) {
        Some(i)
    } else {
        find_from(s, pat, i + 1)
    }
}

/// `str::contains` with a string pattern.
pub open spec fn contains(s: Seq<char>, pat: Seq<char>) -> bool {
    find_from(s, pat, 0) is Some
}

/// `str::starts_with`.
pub open spec fn starts_with(s: Seq<char>, pat: Seq<char>) -> bool {
    pat.len() <= s.len() && s.take(pat.len() as int) == pat
}

/// `str::ends_with`.
pub open spec fn ends_with(s: Seq<char>, pat: Seq<char>) -> bool {
    pat.len() <= s.len() && s.skip(s.len() - pat.len()) == pat
}

pub proof fn lemma_find_from_found(s: Seq<char>, pat: Seq<char>, i: int)
    requires
        find_from(s, pat, i) is Some,
    ensures
        i <= find_from(s, pat, i)->0,
        matches_at(s, pat, find_from(s, pat, i)->0),
        forall|j: int| i <= j < find_from(s, pat, i)->0 ==> !matches_at(s, pat, j),
    decreases s.len() + 1 - i,
{
    if !matches_at(s, pat, i) {
        assert(0 <= i && i + pat.len() <= s.len());
        lemma_find_from_found(s, pat, i + 1);
    }
}

/// A pattern found in `s` is found at the same place in `s` followed by
/// anything.
pub proof fn lemma_find_from_extend(s: Seq<char>, t: Seq<char>, pat: Seq<char>, i: int)
    requires
        find_from(s, pat, i) is Some,
    ensures
        find_from(s + t, pat, i) == find_from(s, pat, i),
    decreases s.len() + 1 - i,
{
    lemma_find_from_found(s, pat, i);
    assert(0 <= i && i + pat.len() <= s.len());
    assert((s + t).subrange(i, i + pat.len()) =~= s.subrange(i, i + pat.len()));
    if !matches_at(s, pat, i) {
        lemma_find_from_extend(s, t, pat, i + 1);
    }
}

pub proof fn lemma_find_from_none(s: Seq<char>, pat: Seq<char>, i: int, j: int)
    requires
        0 <= i <= j,
        find_from(s, pat, i) is None,
    ensures
        !matches_at(s, pat, j),
    decreases s.len() - i,
{
    if i + pat.len() <= s.len() && i < j && i < s.len() {
        lemma_find_from_none(s, pat, i + 1, j);
    }
}

/// Whether `pat` occurs in `s` at index `k`.
pub fn matches_at_exec(s: &[char], pat: &[char], k: usize) -> (r: bool)
    ensures
        r == matches_at(s@, pat@, k as int),
{
    if k > s.len() || pat.len() > s.len() - k {
        return false;
    }
    let mut j: usize = 0;
    while j < pat.len()
        invariant
            k + pat@.len() <= s@.len(),
            j <= pat@.len(),
            forall|t: int| 0 <= t < j ==> s@[k + t] == pat@[t],
        decreases pat@.len() - j,
    {
        assert(k + j < s.len());
        if s[k + j] != pat[j] {
            assert(s@.subrange(k as int, k + pat@.len())[j as int] != pat@[j as int]);
            return false;
        }
        j = j + 1;
    }
    assert(s@.subrange(k as int, k + pat@.len()) =~= pat@);
    true
}

/// The first occurrence of `pat` in `s` at or after `from`.
pub fn find_chars(s: &[char], pat: &[char], from: usize) -> (r: Option<usize>)
    ensures
        r matches Some(k) ==> find_from(s@, pat@, from as int) == Some(k as int),
        r is None ==> find_from(s@, pat@, from as int) is None,
{
    let mut k = from;
    while k <= s.len() && pat.len() <= s.len() - k
        invariant
            from <= k,
            find_from(s@, pat@, from as int) == find_from(s@, pat@, k as int),
        decreases s@.len() + 1 - k,
    {
        if matches_at_exec(s, pat, k) {
            return Some(k);
        }
        if k == s.len() {
            assert(s@.subrange(k as int, k as int) =~= pat@);
            return None;
        }
        k = k + 1;
    }
    None
}

// ---------------------------------------------------------------------------
// Lines
// ---------------------------------------------------------------------------
/// The index of the first `'\n'` at or after `i`, or the length of `s`.
pub open spec fn next_nl(s: Seq<char>, i: int) -> int
    decreases s.len() - i,
{
    if i >= s.len() {
        s.len() as int
    } else if s[i] == '\n' {
        i
    } else {
        next_nl(s, i + 1)
    }
}

/// One `'\r'` removed from the end, if there is one.
pub open spec fn strip_cr(s: Seq<char>) -> Seq<char> {
    if s.len() > 0 && s.last() == '\r' {
        s.drop_last()
    } else {
        s
    }
}

/// `str::lines` from index `i` on: pieces ended by `'\n'` (with one `'\r'`
/// before it removed), then an unterminated last piece if it is not empty.
pub open spec fn lines_from(s: Seq<char>, i: int) -> Seq<Seq<char>>
    decreases s.len() - i,
{
    if i < 0 || i >= s.len() {
        Seq::empty()
    } else {
        let j = next_nl(s, i);
        proof {
            lemma_next_nl_bounds(s, i);
        }
        if j >= s.len() {
            seq![s.subrange(i, s.len() as int)]
        } else {
            seq![strip_cr(s.subrange(i, j))] + lines_from(s, j + 1)
        }
    }
}

/// `str::lines`.
pub open spec fn lines(s: Seq<char>) -> Seq<Seq<char>> {
    lines_from(s, 0)
}

/// The views of a sequence of character vectors.
pub open spec fn views(v: Seq<Vec<char>>) -> Seq<Seq<char>> {
    Seq::new(v.len(), |i: int| v[i]@)
}

pub proof fn lemma_next_nl_bounds(s: Seq<char>, i: int)
    requires
        0 <= i,
    ensures
        i <= next_nl(s, i) <= s.len() || (i > s.len() && next_nl(s, i) == s.len()),
        next_nl(s, i) < s.len() ==> s[next_nl(s, i)] == '\n',
        forall|k: int| i <= k < next_nl(s, i) ==> s[k] != '\n',
    decreases s.len() - i,
{
    if i < s.len() && s[i] != '\n' {
        lemma_next_nl_bounds(s, i + 1);
    }
}

/// The index of the first `'\n'` in `s` at or after `i`, or its length.
pub fn next_newline(s: &[char], i: usize) -> (r: usize)
    requires
        i <= s@.len(),
    ensures
        r as int == next_nl(s@, i as int),
        i <= r <= s@.len(),
{
    let mut k = i;
    while k < s.len() && s[k] != '\n'
        invariant
            i <= k <= s@.len(),
            next_nl(s@, i as int) == next_nl(s@, k as int),
        decreases s@.len() - k,
    {
        k = k + 1;
    }
    k
}

/// No line break or carriage return in `s`.
pub open spec fn one_line(s: Seq<char>) -> bool {
    forall|i: int| 0 <= i < s.len() ==> s[i] != '\n' && s[i] != '\r'
}

pub proof fn lemma_one_line_concat(a: Seq<char>, b: Seq<char>)
    requires
        one_line(a),
        one_line(b),
    ensures
        one_line(a + b),
{
    assert forall|i: int| 0 <= i < (a + b).len() implies (a + b)[i] != '\n' && (a + b)[i]
        != '\r' by {
        if i < a.len() {
            assert((a + b)[i] == a[i]);
        } else {
            assert((a + b)[i] == b[i - a.len()]);
        }
    }
}

proof fn lemma_next_nl_skip(s: Seq<char>, i: int, j: int)
    requires
        0 <= i <= j <= s.len(),
        forall|k: int| i <= k < j ==> s[k] != '\n',
    ensures
        next_nl(s, i) == next_nl(s, j),
    decreases j - i,
{
    if i < j {
        lemma_next_nl_skip(s, i + 1, j);
    }
}

proof fn lemma_next_nl_shift(p: Seq<char>, q: Seq<char>, j: int)
    requires
        0 <= j,
    ensures
        next_nl(p + q, p.len() + j) == p.len() + next_nl(q, j),
    decreases q.len() - j,
{
    if j < q.len() {
        assert((p + q)[p.len() + j] == q[j]);
        if q[j] != '\n' {
            lemma_next_nl_shift(p, q, j + 1);
        }
    }
}

pub proof fn lemma_lines_shift(p: Seq<char>, q: Seq<char>, j: int)
    requires
        0 <= j,
    ensures
        lines_from(p + q, p.len() + j) == lines_from(q, j),
    decreases q.len() - j,
{
    if j < q.len() {
        lemma_next_nl_shift(p, q, j);
        lemma_next_nl_bounds(q, j);
        let k = next_nl(q, j);
        if k < q.len() {
            lemma_lines_shift(p, q, k + 1);
            assert((p + q).subrange(p.len() + j, p.len() + k) =~= q.subrange(j, k));
        } else {
            assert((p + q).subrange(p.len() + j, (p + q).len() as int) =~= q.subrange(
                j,
                q.len() as int,
            ));
        }
    }
}

/// A line without breaks, a newline, then the rest: the line comes first.
pub proof fn lemma_lines_cons(a: Seq<char>, rest: Seq<char>)
    requires
        one_line(a),
    ensures
        lines(a + seq!['\n'] + rest) == seq![a] + lines(rest),
{
    let s = a + seq!['\n'] + rest;
    assert forall|k: int| 0 <= k < a.len() implies s[k] != '\n' by {
        assert(s[k] == a[k]);
    }
    lemma_next_nl_skip(s, 0, a.len() as int);
    assert(s[a.len() as int] == '\n');
    assert(next_nl(s, 0) == a.len());
    assert(s.subrange(0, a.len() as int) =~= a);
    assert(strip_cr(a) == a) by {
        if a.len() > 0 {
            assert(a.last() == a[a.len() - 1]);
        }
    }
    lemma_lines_shift(a + seq!['\n'], rest, 0);
    assert((a + seq!['\n']).len() + 0 == a.len() + 1);
    assert(a + seq!['\n'] + rest == s);
}

/// `str::lines` on a character vector.
pub fn split_lines(s: &[char]) -> (r: Vec<Vec<char>>)
    ensures
        views(r@) == lines(s@),
{
    let mut out: Vec<Vec<char>> = Vec::new();
    let mut i: usize = 0;
    while i < s.len()
        invariant
            i <= s@.len(),
            lines(s@) == views(out@) + lines_from(s@, i as int),
        decreases s@.len() - i,
    {
        let j = next_newline(s, i);
        let ghost before = views(out@);
        if j >= s.len() {
            out.push(slice_chars(s, i, s.len()));
            assert(lines_from(s@, s@.len() as int) =~= Seq::<Seq<char>>::empty());
            assert(views(out@) =~= before + lines_from(s@, i as int));
            i = s.len();
        } else {
            let mut line = slice_chars(s, i, j);
            if j > i && s[j - 1] == '\r' {
                line.pop();
            }
            proof {
                let piece = s@.subrange(i as int, j as int);
                assert(line@ =~= strip_cr(piece));
            }
            out.push(line);
            assert(views(out@) =~= before.push(out@.last()@));
            assert(before + lines_from(s@, i as int) =~= views(out@) + lines_from(
                s@,
                j + 1,
            ));
            i = j + 1;
        }
    }
    assert(lines_from(s@, i as int) =~= Seq::<Seq<char>>::empty());
    assert(views(out@) + Seq::<Seq<char>>::empty() =~= views(out@));
    out
}

// ---------------------------------------------------------------------------
// Parsing integers
// ---------------------------------------------------------------------------
/// The character is an ASCII decimal digit.
pub open spec fn is_digit(c: char) -> bool {
    '0' <= c && c <= '9'
}

/// Every character is an ASCII decimal digit.
pub open spec fn all_digits(s: Seq<char>) -> bool {
    forall|i: int| 0 <= i < s.len() ==> is_digit(#[trigger] s[i])
}

/// The value of a string of decimal digits.
pub open spec fn digits_value(s: Seq<char>) -> nat
    decreases s.len(),
{
    if s.len() == 0 {
        0
    } else {
        digits_value(s.drop_last()) * 10 + ((s.last() as u32) - 48) as nat
    }
}

/// The unsigned integer that `FromStr` reads from `s` for a type whose
/// largest value is `max`: an optional `'+'`, then at least one ASCII digit,
/// and no more than `max`.
pub open spec fn parse_unsigned(s: Seq<char>, max: nat) -> Option<nat> {
    let d = if s.len() > 0 && s[0] == '+' {
        s.drop_first()
    } else {
        s
    };
    if d.len() > 0 && all_digits(d) && digits_value(d) <= max {
        Some(digits_value(d))
    } else {
        None
    }
}

/// The signed integer that `FromStr` reads from `s` for a type with range
/// `[min, max]`: an optional `'+'` or `'-'`, then at least one ASCII digit.
pub open spec fn parse_signed(s: Seq<char>, min: int, max: int) -> Option<int> {
    if s.len() > 0 && s[0] == '-' {
        let d = s.drop_first();
        if d.len() > 0 && all_digits(d) && -(digits_value(d) as int) >= min {
            Some(-(digits_value(d) as int))
        } else {
            None
        }
    } else {
        match parse_unsigned(s, max as nat) {
            Some(v) => if max >= 0 { Some(v as int) } else { None },
            None => None,
        }
    }
}

proof fn lemma_digits_value_prefix(s: Seq<char>, k: int)
    requires
        0 <= k <= s.len(),
    ensures
        digits_value(s.take(k)) <= digits_value(s),
    decreases s.len() - k,
{
    if k < s.len() {
        lemma_digits_value_prefix(s, k + 1);
        assert(s.take(k + 1).drop_last() =~= s.take(k));
    } else {
        assert(s.take(k) =~= s);
    }
}

/// The value of the digits `s[a..]` if they are all digits and the value is
/// at most `max`.
fn digits_upto(s: &[char], a: usize, max: u64) -> (r: Option<u64>)
    requires
        a <= s@.len(),
    ensures
        r matches Some(v) ==> all_digits(s@.skip(a as int)) && digits_value(s@.skip(a as int))
            == v && v <= max,
        r is None ==> !all_digits(s@.skip(a as int)) || digits_value(s@.skip(a as int)) > max,
{
    let ghost d = s@.skip(a as int);
    let mut v: u64 = 0;
    let mut i = a;
    while i < s.len()
        invariant
            a <= i <= s@.len(),
            d == s@.skip(a as int),
            all_digits(d.take(i - a)),
            digits_value(d.take(i - a)) == v,
            v <= max,
        decreases s@.len() - i,
    {
        let c = s[i];
        assert(d[i - a] == c);
        if !('0' <= c && c <= '9') {
            return None;
        }
        let dv = ((c as u32) - 48) as u64;
        assert(d.take(i - a + 1).drop_last() =~= d.take(i - a));
        let next = if v <= (u64::MAX - dv) / 10 {
            Some(v * 10 + dv)
        } else {
            None
        };
        match next {
            Some(n) if n <= max => {
                v = n;
            },
            _ => {
                proof {
                    assert(digits_value(d.take(i - a + 1)) == v * 10 + dv);
                    lemma_digits_value_prefix(d, i - a + 1);
                    assert forall|t: int| 0 <= t < i - a + 1 implies is_digit(
                        #[trigger] d.take(i - a + 1)[t],
                    ) by {
                        if t < i - a {
                            assert(d.take(i - a + 1)[t] == d.take(i - a)[t]);
                        }
                    }
                }
                return None;
            },
        }
        assert forall|t: int| 0 <= t < i - a + 1 implies is_digit(
            #[trigger] d.take(i - a + 1)[t],
        ) by {
            if t < i - a {
                assert(d.take(i - a + 1)[t] == d.take(i - a)[t]);
            }
        }
        i = i + 1;
    }
    assert(d.take(i - a) =~= d);
    Some(v)
}

/// Reads an unsigned integer whose largest value is `max`, as `FromStr` does.
pub fn parse_unsigned_chars(s: &[char], max: u64) -> (r: Option<u64>)
    ensures
        r matches Some(v) ==> parse_unsigned(s@, max as nat) == Some(v as nat),
        r is None ==> parse_unsigned(s@, max as nat) is None,
{
    let a: usize = if s.len() > 0 && s[0] == '+' {
        1
    } else {
        0
    };
    assert(s@.skip(a as int) =~= (if s@.len() > 0 && s@[0] == '+' {
        s@.drop_first()
    } else {
        s@
    }));
    if a >= s.len() {
        return None;
    }
    digits_upto(s, a, max)
}

/// Reads an `i32` as `FromStr` does.
pub fn parse_i32_chars(s: &[char]) -> (r: Option<i32>)
    ensures
        r matches Some(v) ==> parse_signed(s@, i32::MIN as int, i32::MAX as int) == Some(
            v as int,
        ),
        r is None ==> parse_signed(s@, i32::MIN as int, i32::MAX as int) is None,
{
    if s.len() > 0 && s[0] == '-' {
        assert(s@.skip(1) =~= s@.drop_first());
        if s.len() == 1 {
            return None;
        }
        match digits_upto(s, 1, 2147483648) {
            Some(v) => {
                if v == 2147483648 {
                    Some(i32::MIN)
                } else {
                    Some(-(v as i32))
                }
            },
            None => None,
        }
    } else {
        match parse_unsigned_chars(s, 2147483647) {
            Some(v) => Some(v as i32),
            None => None,
        }
    }
}

// ---------------------------------------------------------------------------
// Ordering
// ---------------------------------------------------------------------------
/// Lexicographic order of character sequences: `a < b` for `String`s (the
/// order of UTF-8 bytes is the order of the characters they encode).
pub open spec fn lex_lt(a: Seq<char>, b: Seq<char>) -> bool
    decreases a.len(),
{
    if b.len() == 0 {
        false
    } else if a.len() == 0 {
        true
    } else if a[0] != b[0] {
        a[0] < b[0]
    } else {
        lex_lt(a.drop_first(), b.drop_first())
    }
}

/// `a >= b` for strings.
pub open spec fn lex_ge(a: Seq<char>, b: Seq<char>) -> bool {
    !lex_lt(a, b)
}

/// Whether `a >= b` in the order of `String`.
pub fn str_ge(a: &[char], b: &[char]) -> (r: bool)
    ensures
        r == lex_ge(a@, b@),
{
    let mut i: usize = 0;
    assert(a@.skip(0) =~= a@);
    assert(b@.skip(0) =~= b@);
    while i < a.len() && i < b.len() && a[i] == b[i]
        invariant
            i <= a@.len(),
            i <= b@.len(),
            lex_lt(a@, b@) == lex_lt(a@.skip(i as int), b@.skip(i as int)),
        decreases a@.len() - i,
    {
        assert(a@.skip(i as int).drop_first() =~= a@.skip(i + 1));
        assert(b@.skip(i as int).drop_first() =~= b@.skip(i + 1));
        i = i + 1;
    }
    if i == b.len() {
        assert(b@.skip(i as int).len() == 0);
        true
    } else if i == a.len() {
        assert(a@.skip(i as int).len() == 0);
        false
    } else {
        assert(a@.skip(i as int)[0] == a@[i as int]);
        assert(b@.skip(i as int)[0] == b@[i as int]);
        !(a[i] < b[i])
    }
}

/// Whether two strings hold the same characters.
pub fn str_eq(a: &str, b: &str) -> (r: bool)
    ensures
        r == (a@ == b@),
{
    let x = chars_of(a);
    let y = chars_of(b);
    if x.len() != y.len() {
        return false;
    }
    let mut i: usize = 0;
    while i < x.len()
        invariant
            x@ == a@,
            y@ == b@,
            x@.len() == y@.len(),
            i <= x@.len(),
            forall|j: int| 0 <= j < i ==> x@[j] == y@[j],
        decreases x@.len() - i,
    {
        if x[i] != y[i] {
            return false;
        }
        i = i + 1;
    }
    assert(x@ =~= y@);
    true
}

} // verus!

verus! {

// ---------------------------------------------------------------------------
// Splitting
// ---------------------------------------------------------------------------
/// `str::split` on a character: the pieces between occurrences of `c`,
/// empty ones included (one piece, empty, for an empty string).
pub open spec fn split_on(s: Seq<char>, c: char) -> Seq<Seq<char>>
    decreases s.len(),
{
    if s.len() == 0 {
        seq![Seq::<char>::empty()]
    } else {
        let p = split_on(s.drop_last(), c);
        if s.last() == c {
            p.push(Seq::empty())
        } else {
            p.update(p.len() - 1, p.last().push(s.last()))
        }
    }
}

pub proof fn lemma_split_on_nonempty(s: Seq<char>, c: char)
    ensures
        split_on(s, c).len() >= 1,
    decreases s.len(),
{
    if s.len() > 0 {
        lemma_split_on_nonempty(s.drop_last(), c);
    }
}

/// The pieces of `s` between whitespace, each split at every whitespace
/// character, empty ones included.
pub open spec fn split_ws_all(s: Seq<char>) -> Seq<Seq<char>>
    decreases s.len(),
{
    if s.len() == 0 {
        seq![Seq::<char>::empty()]
    } else {
        let p = split_ws_all(s.drop_last());
        if is_ws(s.last()) {
            p.push(Seq::empty())
        } else {
            p.update(p.len() - 1, p.last().push(s.last()))
        }
    }
}

proof fn lemma_split_ws_all_nonempty(s: Seq<char>)
    ensures
        split_ws_all(s).len() >= 1,
    decreases s.len(),
{
    if s.len() > 0 {
        lemma_split_ws_all_nonempty(s.drop_last());
    }
}

/// The non-empty pieces, in order.
pub open spec fn nonempty_pieces(p: Seq<Seq<char>>) -> Seq<Seq<char>>
    decreases p.len(),
{
    if p.len() == 0 {
        Seq::empty()
    } else if p.last().len() > 0 {
        nonempty_pieces(p.drop_last()).push(p.last())
    } else {
        nonempty_pieces(p.drop_last())
    }
}

/// `str::split_whitespace`: the words of `s`.
pub open spec fn words(s: Seq<char>) -> Seq<Seq<char>> {
    nonempty_pieces(split_ws_all(s))
}

/// The pieces of `v` split on `c`.
pub fn split_on_char(v: &[char], c: char) -> (r: Vec<Vec<char>>)
    ensures
        views(r@) == split_on(v@, c),
{
    let mut done: Vec<Vec<char>> = Vec::new();
    let mut cur: Vec<char> = Vec::new();
    let mut i: usize = 0;
    assert(v@.take(0) =~= Seq::<char>::empty());
    assert(views(done@).push(cur@) =~= seq![Seq::<char>::empty()]);
    while i < v.len()
        invariant
            i <= v@.len(),
            split_on(v@.take(i as int), c) == views(done@).push(cur@),
        decreases v@.len() - i,
    {
        let ghost t = v@.take(i + 1);
        assert(t.drop_last() =~= v@.take(i as int));
        assert(t.last() == v@[i as int]);
        let ghost before = views(done@);
        if v[i] == c {
            let piece = cur;
            done.push(piece);
            cur = Vec::new();
            assert(views(done@) =~= before.push(piece@));
            assert(split_on(t, c) =~= views(done@).push(cur@));
        } else {
            let ghost old_cur = cur@;
            cur.push(v[i]);
            assert(split_on(t, c) =~= before.push(old_cur).update(before.len() as int, old_cur.push(v@[i as int])));
            assert(views(done@).push(cur@) =~= before.push(old_cur).update(before.len() as int, old_cur.push(v@[i as int])));
        }
        i = i + 1;
    }
    assert(v@.take(i as int) =~= v@);
    let ghost before = views(done@);
    done.push(cur);
    assert(views(done@) =~= before.push(done@.last()@));
    done
}

/// The words of `v`.
pub fn split_words(v: &[char]) -> (r: Vec<Vec<char>>)
    ensures
        views(r@) == words(v@),
{
    let mut done: Vec<Vec<char>> = Vec::new();
    let mut cur: Vec<char> = Vec::new();
    let mut i: usize = 0;
    assert(v@.take(0) =~= Seq::<char>::empty());
    assert(views(done@) =~= Seq::<Seq<char>>::empty());
    while i < v.len()
        invariant
            i <= v@.len(),
            ({
                let p = split_ws_all(v@.take(i as int));
                &&& p.len() >= 1
                &&& p.last() == cur@
                &&& nonempty_pieces(p.drop_last()) == views(done@)
            }),
        decreases v@.len() - i,
    {
        let ghost t = v@.take(i + 1);
        assert(t.drop_last() =~= v@.take(i as int));
        assert(t.last() == v@[i as int]);
        let ghost p0 = split_ws_all(v@.take(i as int));
        let ghost before = views(done@);
        if is_whitespace(v[i]) {
            let piece = cur;
            cur = Vec::new();
            if piece.len() > 0 {
                done.push(piece);
                assert(views(done@) =~= before.push(piece@));
            }
            let ghost p1 = split_ws_all(t);
            assert(p1 == p0.push(Seq::<char>::empty()));
            assert(p1.drop_last() =~= p0);
            assert(p0 =~= p0.drop_last().push(p0.last()));
        } else {
            cur.push(v[i]);
            let ghost p1 = split_ws_all(t);
            assert(p1.drop_last() =~= p0.drop_last());
        }
        i = i + 1;
    }
    assert(v@.take(i as int) =~= v@);
    let ghost p = split_ws_all(v@);
    assert(p =~= p.drop_last().push(p.last()));
    if cur.len() > 0 {
        let ghost before = views(done@);
        done.push(cur);
        assert(views(done@) =~= before.push(done@.last()@));
    }
    done
}

/// `str::trim_start_matches` with a non-empty string pattern: every
/// leading copy of `pat` removed.
pub open spec fn trim_start_matches(s: Seq<char>, pat: Seq<char>) -> Seq<char>
    decreases s.len(),
{
    if pat.len() > 0 && starts_with(s, pat) {
        trim_start_matches(s.skip(pat.len() as int), pat)
    } else {
        s
    }
}

/// Whether `v` starts with `pat`.
pub fn starts_with_chars(v: &[char], pat: &[char]) -> (r: bool)
    ensures
        r == starts_with(v@, pat@),
{
    let r = matches_at_exec(v, pat, 0);
    proof {
        if pat@.len() <= v@.len() {
            assert(v@.subrange(0, pat@.len() as int) =~= v@.take(pat@.len() as int));
        }
    }
    r
}

/// `v` with every leading copy of `pat` removed.
pub fn trim_start_matching(v: &[char], pat: &[char]) -> (r: Vec<char>)
    requires
        pat@.len() > 0,
    ensures
        r@ == trim_start_matches(v@, pat@),
{
    let mut a: usize = 0;
    assert(v@.skip(0) =~= v@);
    while a <= v.len() && pat.len() <= v.len() - a && matches_at_exec(v, pat, a)
        invariant
            a <= v@.len(),
            pat@.len() > 0,
            trim_start_matches(v@, pat@) == trim_start_matches(v@.skip(a as int), pat@),
        decreases v@.len() - a,
    {
        assert(v@.skip(a as int).take(pat@.len() as int) =~= v@.subrange(a as int, a + pat@.len()));
        assert(v@.skip(a as int).skip(pat@.len() as int) =~= v@.skip(a + pat@.len()));
        a = a + pat.len();
    }
    proof {
        let t = v@.skip(a as int);
        if pat@.len() <= t.len() {
            assert(t.take(pat@.len() as int) =~= v@.subrange(a as int, a + pat@.len()));
        }
    }
    slice_chars(v, a, v.len())
}

} // verus!
