//! System information: what is shown, and how sizes and durations read.
use vstd::prelude::*;

use crate::text::{dec, push_char, push_dec, push_str};

verus! {

/// The facts about the machine that the system lines show.
#[derive(Debug, Clone)]
pub struct SystemInfo {
    pub os: String,
    pub kernel: String,
    pub hostname: String,
    pub cpu: String,
    pub gpu: String,
    pub ram_used: u64,
    pub ram_total: u64,
    pub disk_used: u64,
    pub disk_total: u64,
    pub shell: String,
    pub terminal: String,
    pub resolution: String,
    pub uptime: String,
    pub arch: String,
}

impl Default for SystemInfo {
    fn default() -> (s: Self)
        ensures
            s.os@.len() == 0 && s.kernel@.len() == 0 && s.hostname@.len() == 0 && s.cpu@.len()
                == 0 && s.gpu@.len() == 0,
            s.ram_used == 0 && s.ram_total == 0 && s.disk_used == 0 && s.disk_total == 0,
            s.shell@.len() == 0 && s.terminal@.len() == 0 && s.resolution@.len() == 0
                && s.uptime@.len() == 0 && s.arch@.len() == 0,
    {
        SystemInfo {
            os: String::new(),
            kernel: String::new(),
            hostname: String::new(),
            cpu: String::new(),
            gpu: String::new(),
            ram_used: 0,
            ram_total: 0,
            disk_used: 0,
            disk_total: 0,
            shell: String::new(),
            terminal: String::new(),
            resolution: String::new(),
            uptime: String::new(),
            arch: String::new(),
        }
    }
}

// ---------------------------------------------------------------------------
// Uptime
// ---------------------------------------------------------------------------
/// Uptime as `Dd Hh Mm`, `Hh Mm` when under a day, `Mm` when under an hour;
/// seconds are dropped.
pub open spec fn uptime_text(secs: nat) -> Seq<char> {
    let days = secs / 86400;
    let hours = (secs % 86400) / 3600;
    let mins = (secs % 3600) / 60;
    if days > 0 {
        dec(days) + seq!['d', ' '] + dec(hours) + seq!['h', ' '] + dec(mins) + seq!['m']
    } else if hours > 0 {
        dec(hours) + seq!['h', ' '] + dec(mins) + seq!['m']
    } else {
        dec(mins) + seq!['m']
    }
}

/// The uptime of `secs` seconds as text.
pub fn format_uptime(secs: u64) -> (s: String)
    ensures
        s@ == uptime_text(secs as nat),
{
    let days = secs / 86400;
    let hours = (secs % 86400) / 3600;
    let mins = (secs % 3600) / 60;
    let mut s = String::new();
    if days > 0 {
        push_dec(&mut s, days as u128);
        push_char(&mut s, 'd');
        push_char(&mut s, ' ');
        push_dec(&mut s, hours as u128);
        push_char(&mut s, 'h');
        push_char(&mut s, ' ');
        push_dec(&mut s, mins as u128);
        push_char(&mut s, 'm');
    } else if hours > 0 {
        push_dec(&mut s, hours as u128);
        push_char(&mut s, 'h');
        push_char(&mut s, ' ');
        push_dec(&mut s, mins as u128);
        push_char(&mut s, 'm');
    } else {
        push_dec(&mut s, mins as u128);
        push_char(&mut s, 'm');
    }
    assert(s@ =~= uptime_text(secs as nat));
    s
}

/// Law: the days, hours and minutes shown add up to the uptime rounded down
/// to the minute, with fewer than 24 hours and 60 minutes.
pub proof fn law_uptime_parts(secs: nat)
    ensures
        ({
            let days = secs / 86400;
            let hours = (secs % 86400) / 3600;
            let mins = (secs % 3600) / 60;
            &&& hours < 24
            &&& mins < 60
            &&& days * 86400 + hours * 3600 + mins * 60 <= secs < days * 86400 + hours * 3600
                + mins * 60 + 60
        }),
{
    let days = secs / 86400;
    let r = secs % 86400;
    let hours = r / 3600;
    let mins = (secs % 3600) / 60;
    assert(secs == days * 86400 + r && r < 86400) by (nonlinear_arith)
        requires
            days == secs / 86400,
            r == secs % 86400,
    ;
    assert(secs % 3600 == r % 3600) by (nonlinear_arith)
        requires
            days == secs / 86400,
            r == secs % 86400,
            secs == days * 86400 + r,
    {
        vstd::arithmetic::div_mod::lemma_mod_mod(secs as int, 3600, 24);
    }
    assert(r == hours * 3600 + r % 3600 && r % 3600 < 3600 && hours < 24) by (nonlinear_arith)
        requires
            hours == r / 3600,
            r < 86400,
    ;
    let m = r % 3600;
    assert(m == mins * 60 + m % 60 && m % 60 < 60 && mins < 60) by (nonlinear_arith)
        requires
            mins == m / 60,
            m < 3600,
    ;
}

/// Law: the uptime text names the days, hours and minutes of the uptime:
/// for any `d` days, `h` hours and `m` minutes that make up `secs` rounded
/// down to the minute (with `h < 24` and `m < 60`), the text is `Dd Hh Mm`,
/// or `Hh Mm` when `d` is 0, or `Mm` when both are 0.
pub proof fn law_uptime_text(secs: nat, d: nat, h: nat, m: nat)
    requires
        h < 24,
        m < 60,
        d * 86400 + h * 3600 + m * 60 <= secs < d * 86400 + h * 3600 + m * 60 + 60,
    ensures
        uptime_text(secs) == (if d > 0 {
            dec(d) + seq!['d', ' '] + dec(h) + seq!['h', ' '] + dec(m) + seq!['m']
        } else if h > 0 {
            dec(h) + seq!['h', ' '] + dec(m) + seq!['m']
        } else {
            dec(m) + seq!['m']
        }),
{
    let e: int = secs - (d * 86400 + h * 3600 + m * 60);
    let r: int = h * 3600 + m * 60 + e;
    assert(0 <= r < 86400) by (nonlinear_arith)
        requires
            h < 24,
            m < 60,
            0 <= e < 60,
            r == h * 3600 + m * 60 + e,
    ;
    assert(secs == d * 86400 + r);
    vstd::arithmetic::div_mod::lemma_fundamental_div_mod_converse(secs as int, 86400, d as int, r);
    let q: int = m * 60 + e;
    assert(0 <= q < 3600) by (nonlinear_arith)
        requires
            m < 60,
            0 <= e < 60,
            q == m * 60 + e,
    ;
    vstd::arithmetic::div_mod::lemma_fundamental_div_mod_converse(r, 3600, h as int, q);
    assert(secs == (d * 24 + h) * 3600 + q) by (nonlinear_arith)
        requires
            secs == d * 86400 + r,
            r == h * 3600 + q,
    ;
    vstd::arithmetic::div_mod::lemma_fundamental_div_mod_converse(
        secs as int,
        3600,
        (d * 24 + h) as int,
        q,
    );
    vstd::arithmetic::div_mod::lemma_fundamental_div_mod_converse(q, 60, m as int, e);
}

// ---------------------------------------------------------------------------
// Byte sizes
// ---------------------------------------------------------------------------
/// 2 to the power `n`.
pub open spec fn pow2(n: nat) -> nat
    decreases n,
{
    if n == 0 {
        1
    } else {
        2 * pow2((n - 1) as nat)
    }
}

/// 1024 to the power `k`.
pub open spec fn pow1024(k: nat) -> nat
    decreases k,
{
    if k == 0 {
        1
    } else {
        1024 * pow1024((k - 1) as nat)
    }
}

/// The number of binary digits of `n`.
pub open spec fn bit_len(n: nat) -> nat
    decreases n,
{
    if n == 0 {
        0
    } else {
        1 + bit_len(n / 2)
    }
}

/// `b` to the nearest value with 53 significant bits, ties to even: the
/// value of `b as f64`.
pub open spec fn f64_value(b: nat) -> nat {
    if bit_len(b) <= 53 {
        b
    } else {
        let p = pow2((bit_len(b) - 53) as nat);
        let q = b / p;
        let r = b % p;
        let q2 = if 2 * r > p || (2 * r == p && q % 2 == 1) {
            q + 1
        } else {
            q
        };
        q2 * p
    }
}

/// The unit for a size of `m` bytes, counting from unit `k`: the next unit
/// while the size in the current one is at least 1024, up to TiB (4).
pub open spec fn unit_for(m: nat, k: nat) -> nat
    decreases 4 - k,
{
    if k < 4 && m >= pow1024(k + 1) {
        unit_for(m, k + 1)
    } else {
        k
    }
}

/// `m / d` in tenths, to the nearest, ties to even: the digits that `{:.1}`
/// shows of that quotient.
pub open spec fn tenths(m: nat, d: nat) -> nat {
    let q = 10 * m / d;
    let r = 10 * m % d;
    if 2 * r > d || (2 * r == d && q % 2 == 1) {
        q + 1
    } else {
        q
    }
}

/// The name of unit `k`.
pub open spec fn unit_name(k: nat) -> Seq<char> {
    if k == 0 {
        seq!['B']
    } else if k == 1 {
        seq!['K', 'i', 'B']
    } else if k == 2 {
        seq!['M', 'i', 'B']
    } else if k == 3 {
        seq!['G', 'i', 'B']
    } else {
        seq!['T', 'i', 'B']
    }
}

/// A byte count as text: the size in the largest binary unit up to TiB in
/// which it is at least 1 (bytes below 1024), rounded to one decimal as the
/// floating-point computation of the size shows it, then a space and the
/// unit. A size that rounds to a whole number shows no decimal (`16 GiB`),
/// any other shows one (`8.2 GiB`).
pub open spec fn bytes_text(b: nat) -> Seq<char> {
    let m = f64_value(b);
    let k = unit_for(m, 0);
    let n = tenths(m, pow1024(k));
    if n % 10 == 0 {
        dec(n / 10) + seq![' '] + unit_name(k)
    } else {
        dec(n / 10) + seq!['.'] + dec(n % 10) + seq![' '] + unit_name(k)
    }
}

proof fn lemma_unit_for(m: nat, k: nat)
    requires
        k <= 4,
        m >= pow1024(k),
    ensures
        k <= unit_for(m, k) <= 4,
        pow1024(unit_for(m, k)) <= m,
        unit_for(m, k) < 4 ==> m < pow1024(unit_for(m, k) + 1),
    decreases 4 - k,
{
    if k < 4 && m >= pow1024(k + 1) {
        lemma_unit_for(m, k + 1);
    }
}

/// Law: the unit chosen for a size of at least one byte is the largest, up
/// to TiB, in which the size is at least 1; below TiB the size in it stays
/// under 1024.
pub proof fn law_unit_range(b: nat)
    requires
        f64_value(b) >= 1,
    ensures
        unit_for(f64_value(b), 0) <= 4,
        pow1024(unit_for(f64_value(b), 0)) <= f64_value(b),
        unit_for(f64_value(b), 0) < 4 ==> f64_value(b) < pow1024(unit_for(f64_value(b), 0) + 1),
{
    lemma_unit_for(f64_value(b), 0);
}

proof fn lemma_bit_len_bound(n: nat)
    ensures
        n < pow2(bit_len(n)),
        n > 0 ==> pow2((bit_len(n) - 1) as nat) <= n,
    decreases n,
{
    if n > 0 {
        lemma_bit_len_bound(n / 2);
    }
}

proof fn lemma_bit_len_u64(n: nat)
    requires
        n < 0x1_0000_0000_0000_0000,
    ensures
        bit_len(n) <= 64,
{
    lemma_bit_len_bound(n);
    if bit_len(n) > 64 {
        lemma_pow2_mono(64, (bit_len(n) - 1) as nat);
        reveal_with_fuel(pow2, 65);
    }
}

proof fn lemma_pow2_mono(a: nat, b: nat)
    requires
        a <= b,
    ensures
        pow2(a) <= pow2(b),
    decreases b,
{
    if a < b {
        lemma_pow2_mono(a, (b - 1) as nat);
    }
}

fn f64_value_exec(b: u64) -> (m: u128)
    ensures
        m == f64_value(b as nat),
        m <= 0x1_0000_0000_0000_1000,
{
    proof {
        lemma_bit_len_u64(b as nat);
    }
    let mut bl: u64 = 0;
    let mut t: u64 = b;
    while t > 0
        invariant
            bl + bit_len(t as nat) == bit_len(b as nat),
            bit_len(b as nat) <= 64,
        decreases t,
    {
        assert(bit_len(t as nat) == 1 + bit_len((t / 2) as nat));
        t = t / 2;
        bl = bl + 1;
    }
    if bl <= 53 {
        return b as u128;
    }
    let s = bl - 53;
    let mut p: u128 = 1;
    let mut i: u64 = 0;
    while i < s
        invariant
            i <= s <= 11,
            p == pow2(i as nat),
            1 <= p <= 2048,
        decreases s - i,
    {
        proof {
            lemma_pow2_mono((i + 1) as nat, 11);
            reveal_with_fuel(pow2, 12);
        }
        p = p * 2;
        i = i + 1;
    }
    let bb = b as u128;
    let q = bb / p;
    let r = bb % p;
    assert(q <= bb) by (nonlinear_arith)
        requires
            p >= 1,
            q == bb / p,
    ;
    let q2 = if 2 * r > p || (2 * r == p && q % 2 == 1) {
        q + 1
    } else {
        q
    };
    assert(q * p <= bb) by (nonlinear_arith)
        requires
            p >= 1,
            q == bb / p,
    ;
    assert(q2 * p <= bb + p) by (nonlinear_arith)
        requires
            q2 <= q + 1,
            q * p <= bb,
            p >= 1,
    ;
    q2 * p
}

fn push_unit(s: &mut String, k: u64)
    ensures
        final(s)@ == old(s)@ + unit_name(k as nat),
{
    let ghost start = s@;
    if k == 0 {
        push_char(s, 'B');
    } else {
        if k == 1 {
            push_char(s, 'K');
        } else if k == 2 {
            push_char(s, 'M');
        } else if k == 3 {
            push_char(s, 'G');
        } else {
            push_char(s, 'T');
        }
        push_char(s, 'i');
        push_char(s, 'B');
    }
    assert(s@ =~= start + unit_name(k as nat));
}

/// A byte count as text, e.g. `8.2 GiB` or `16 GiB`.
pub fn format_bytes(bytes: u64) -> (s: String)
    ensures
        s@ == bytes_text(bytes as nat),
{
    let m = f64_value_exec(bytes);
    let mut d: u128 = 1;
    let mut k: u64 = 0;
    while k < 4 && m >= d * 1024
        invariant
            k <= 4,
            d == pow1024(k as nat),
            d <= 0x100_0000_0000,
            unit_for(m as nat, 0) == unit_for(m as nat, k as nat),
        decreases 4 - k,
    {
        proof {
            reveal_with_fuel(pow1024, 5);
        }
        d = d * 1024;
        k = k + 1;
    }
    proof {
        lemma_pow1024_pos(k as nat);
    }
    let ten_m = 10 * m;
    let q = ten_m / d;
    let r = ten_m % d;
    let n = if 2 * r > d || (2 * r == d && q % 2 == 1) {
        q + 1
    } else {
        q
    };
    assert(q <= ten_m) by (nonlinear_arith)
        requires
            d >= 1,
            q == ten_m / d,
    ;
    let mut s = String::new();
    push_dec(&mut s, n / 10);
    if n % 10 != 0 {
        push_char(&mut s, '.');
        push_dec(&mut s, n % 10);
    }
    push_char(&mut s, ' ');
    push_unit(&mut s, k);
    assert(s@ =~= bytes_text(bytes as nat));
    s
}

proof fn lemma_pow1024_pos(k: nat)
    ensures
        pow1024(k) >= 1,
    decreases k,
{
    if k > 0 {
        lemma_pow1024_pos((k - 1) as nat);
    }
}

impl SystemInfo {
    /// Memory in use, as text.
    pub fn ram_used_str(&self) -> (s: String)
        ensures
            s@ == bytes_text(self.ram_used as nat),
    {
        format_bytes(self.ram_used)
    }

    /// Total memory, as text.
    pub fn ram_total_str(&self) -> (s: String)
        ensures
            s@ == bytes_text(self.ram_total as nat),
    {
        format_bytes(self.ram_total)
    }

    /// Disk space in use, as text.
    pub fn disk_used_str(&self) -> (s: String)
        ensures
            s@ == bytes_text(self.disk_used as nat),
    {
        format_bytes(self.disk_used)
    }

    /// Total disk space, as text.
    pub fn disk_total_str(&self) -> (s: String)
        ensures
            s@ == bytes_text(self.disk_total as nat),
    {
        format_bytes(self.disk_total)
    }
}

} // verus!
