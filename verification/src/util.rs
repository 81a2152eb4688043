//! Small formatting and parsing helpers around the renderer's driver:
//! humane byte sizes for the scene statistics and wall-clock time limits
//! given on the command line.

use vstd::prelude::*;

verus! {

/// The digit character for a value below ten.
pub open spec fn spec_digit_char(d: int) -> char {
    if d == 0 {
        '0'
    } else if d == 1 {
        '1'
    } else if d == 2 {
        '2'
    } else if d == 3 {
        '3'
    } else if d == 4 {
        '4'
    } else if d == 5 {
        '5'
    } else if d == 6 {
        '6'
    } else if d == 7 {
        '7'
    } else if d == 8 {
        '8'
    } else {
        '9'
    }
}

/// The decimal digits of a non-negative value, most significant first.
pub open spec fn spec_decimal(n: int) -> Seq<char>
    decreases n,
{
    if n < 10 {
        seq![spec_digit_char(n)]
    } else {
        spec_decimal(n / 10).push(spec_digit_char(n % 10))
    }
}

/// `n` spaces.
pub open spec fn spec_spaces(n: int) -> Seq<char>
    decreases n,
{
    if n <= 0 {
        Seq::empty()
    } else {
        spec_spaces(n - 1).push(' ')
    }
}

/// A tenths value rendered with one decimal place, right-aligned to at
/// least seven characters.
pub open spec fn spec_fixed1(tenths: int) -> Seq<char> {
    let body = spec_decimal(tenths / 10) + seq!['.', spec_digit_char(tenths % 10)];
    spec_spaces(7 - body.len()) + body
}

/// A byte count scaled to tenths of the given unit, rounded to the nearest
/// tenth with halves rounding up.
pub open spec fn spec_scaled_tenths(size: int, unit: int) -> int {
    (size * 10 + unit / 2) / unit
}

/// A byte count as text: scaled to the largest binary unit it exceeds,
/// with one decimal place, the number right-aligned to seven characters.
pub open spec fn spec_human_size(size: int) -> Seq<char> {
    if size > 0x4000_0000 {
        spec_fixed1(spec_scaled_tenths(size, 0x4000_0000)) + " GiB"@
    } else if size > 0x10_0000 {
        spec_fixed1(spec_scaled_tenths(size, 0x10_0000)) + " MiB"@
    } else if size > 1024 {
        spec_fixed1(spec_scaled_tenths(size, 1024)) + " KiB"@
    } else {
        spec_fixed1(size * 10) + " B"@
    }
}

/// One decimal digit as text.
fn digit_str(d: u64) -> (r: &'static str)
    requires
        d < 10,
    ensures
        r@ =~= seq![spec_digit_char(d as int)],
{
    proof {
        reveal_strlit("0");
        reveal_strlit("1");
        reveal_strlit("2");
        reveal_strlit("3");
        reveal_strlit("4");
        reveal_strlit("5");
        reveal_strlit("6");
        reveal_strlit("7");
        reveal_strlit("8");
        reveal_strlit("9");
    }
    if d == 0 {
        "0"
    } else if d == 1 {
        "1"
    } else if d == 2 {
        "2"
    } else if d == 3 {
        "3"
    } else if d == 4 {
        "4"
    } else if d == 5 {
        "5"
    } else if d == 6 {
        "6"
    } else if d == 7 {
        "7"
    } else if d == 8 {
        "8"
    } else {
        "9"
    }
}

/// The decimal digits of a value, most significant first.
pub fn u64_decimal(n: u64) -> (r: String)
    ensures
        r@ == spec_decimal(n as int),
    decreases n,
{
    if n < 10 {
        String::from_str(digit_str(n))
    } else {
        let mut s = u64_decimal(n / 10);
        s.append(digit_str(n % 10));
        proof {
            assert(s@ =~= spec_decimal(n as int));
        }
        s
    }
}

/// `n` spaces as text.
fn spaces(n: usize) -> (r: String)
    ensures
        r@ == spec_spaces(n as int),
{
    proof {
        reveal_strlit(" ");
    }
    let mut s = String::new();
    let mut i: usize = 0;
    while i < n
        invariant
            i <= n,
            s@ == spec_spaces(i as int),
        decreases n - i,
    {
        s.append(" ");
        proof {
            reveal_strlit(" ");
            assert(s@ =~= spec_spaces(i + 1));
        }
        i += 1;
    }
    s
}

/// How many digits a small value renders to.
proof fn lemma_decimal_len_small(n: int)
    requires
        0 <= n,
    ensures
        spec_decimal(n).len() >= 1,
        n < 10 ==> spec_decimal(n).len() == 1,
        10 <= n < 100 ==> spec_decimal(n).len() == 2,
        100 <= n < 1000 ==> spec_decimal(n).len() == 3,
        1000 <= n < 10000 ==> spec_decimal(n).len() == 4,
        n >= 10000 ==> spec_decimal(n).len() >= 5,
    decreases n,
{
    if n >= 10 {
        lemma_decimal_len_small(n / 10);
    }
}

/// A tenths value with one decimal place, right-aligned to seven
/// characters.
fn fixed1(tenths: u64) -> (r: String)
    ensures
        r@ == spec_fixed1(tenths as int),
{
    proof {
        reveal_strlit(".");
    }
    let whole_val = tenths / 10;
    let whole = u64_decimal(whole_val);
    let frac = digit_str(tenths % 10);
    proof {
        lemma_decimal_len_small(whole_val as int);
    }
    let pad: usize = if whole_val < 10 {
        4
    } else if whole_val < 100 {
        3
    } else if whole_val < 1000 {
        2
    } else if whole_val < 10_000 {
        1
    } else {
        0
    };
    let mut s = spaces(pad);
    s.append(whole.as_str());
    s.append(".");
    s.append(frac);
    proof {
        assert(s@ =~= spec_fixed1(tenths as int));
    }
    s
}

/// The scaled tenths of a byte count against a unit, rounded half up; the
/// result of any unit of a kibibyte or more fits comfortably in range.
fn scaled_tenths(size: usize, unit: u64) -> (r: u64)
    requires
        unit >= 1024,
    ensures
        r == spec_scaled_tenths(size as int, unit as int),
{
    let wide: u128 = (size as u128) * 10 + ((unit / 2) as u128);
    proof {
        vstd::arithmetic::div_mod::lemma_div_pos_is_pos(wide as int, unit as int);
        vstd::arithmetic::div_mod::lemma_multiply_divide_lt(
            wide as int,
            unit as int,
            0x1_0000_0000_0000_0000,
        );
        assert((wide as int) < (unit as int) * 0x1_0000_0000_0000_0000) by (nonlinear_arith)
            requires
                unit >= 1024,
                wide <= 0xffff_ffff_ffff_ffff_ffff_ffff_ffff_ffff,
                wide as int <= (usize::MAX as int) * 10 + (unit as int) / 2,
        ;
    }
    (wide / (unit as u128)) as u64
}

/// A byte count as text, scaled to the largest binary unit it exceeds.
pub fn human_size(size: usize) -> (r: String)
    ensures
        r@ == spec_human_size(size as int),
{
    proof {
        reveal_strlit(" GiB");
        reveal_strlit(" MiB");
        reveal_strlit(" KiB");
        reveal_strlit(" B");
    }
    if size > 0x4000_0000 {
        let mut s = fixed1(scaled_tenths(size, 0x4000_0000));
        s.append(" GiB");
        s
    } else if size > 0x10_0000 {
        let mut s = fixed1(scaled_tenths(size, 0x10_0000));
        s.append(" MiB");
        s
    } else if size > 1024 {
        let mut s = fixed1(scaled_tenths(size, 1024));
        s.append(" KiB");
        s
    } else {
        let mut s = fixed1((size as u64) * 10);
        s.append(" B");
        s
    }
}

/// An ASCII letter of either case.
pub open spec fn is_alpha(c: char) -> bool {
    ('a' <= c && c <= 'z') || ('A' <= c && c <= 'Z')
}

/// An ASCII digit.
pub open spec fn is_digit(c: char) -> bool {
    '0' <= c && c <= '9'
}

/// The numeric value of a digit character.
pub open spec fn digit_of(c: char) -> int {
    c as int - '0' as int
}

/// Length of the number part: everything before the trailing run of
/// letters that names the unit.
pub open spec fn num_len(s: Seq<char>) -> int
    decreases s.len(),
{
    if s.len() == 0 {
        0
    } else if is_alpha(s.last()) {
        num_len(s.drop_last())
    } else {
        s.len() as int
    }
}

/// The value of a run of digit characters, most significant first.
pub open spec fn digits_value(s: Seq<char>) -> int
    decreases s.len(),
{
    if s.len() == 0 {
        0
    } else {
        digits_value(s.drop_last()) * 10 + digit_of(s.last())
    }
}

/// Every character is a digit.
pub open spec fn all_digits(s: Seq<char>) -> bool {
    forall|i: int| 0 <= i < s.len() ==> is_digit(#[trigger] s[i])
}

/// The position of the first decimal point, if any.
pub open spec fn spec_dot_index(s: Seq<char>) -> Option<int>
    decreases s.len(),
{
    if s.len() == 0 {
        None
    } else if s[0] == '.' {
        Some(0int)
    } else {
        match spec_dot_index(s.drop_first()) {
            Some(i) => Some(i + 1),
            None => None,
        }
    }
}

/// A position before which no decimal point occurs, holding one itself, is
/// the first one; a string without any point has none.
proof fn lemma_dot_index(s: Seq<char>, d: int)
    requires
        0 <= d <= s.len(),
        forall|j: int| 0 <= j < d ==> s[j] != '.',
        d < s.len() ==> s[d] == '.',
    ensures
        d < s.len() ==> spec_dot_index(s) == Some(d),
        (d == s.len() && forall|j: int| 0 <= j < s.len() ==> s[j] != '.') ==> spec_dot_index(s)
            is None,
    decreases s.len(),
{
    if s.len() > 0 && s[0] != '.' {
        lemma_dot_index(s.drop_first(), if d > 0 {
            d - 1
        } else {
            0
        });
        assert(forall|j: int| 0 <= j < s.drop_first().len() ==> s.drop_first()[j] == s[j + 1]);
    }
}

/// Ten to the `k`-th power.
pub open spec fn pow10(k: int) -> int
    decreases k,
{
    if k <= 0 {
        1
    } else {
        10 * pow10(k - 1)
    }
}

/// The exact value a number part denotes, as an integer numerator and the
/// count of its fractional digits: plain digits, or digits around one
/// decimal point, rejecting empty or over-long (more than nineteen digits)
/// numbers.
pub open spec fn spec_number(s: Seq<char>) -> Option<(int, int)> {
    match spec_dot_index(s) {
        None => if 1 <= s.len() <= 19 && all_digits(s) {
            Some((digits_value(s), 0int))
        } else {
            None
        },
        Some(i) => {
            let ip = s.take(i);
            let fp = s.skip(i + 1);
            if s.len() >= 2 && s.len() <= 20 && all_digits(ip) && all_digits(fp) {
                Some((digits_value(ip) * pow10(fp.len() as int) + digits_value(fp), fp.len() as int))
            } else {
                None
            }
        },
    }
}

/// Case-insensitive match of a character against a lower-case letter.
pub open spec fn eq_ci(a: char, b_lower: char) -> bool {
    a == b_lower || (('A' <= a && a <= 'Z') && a as int + 32 == b_lower as int)
}

/// Case-insensitive match of a suffix against a lower-case unit name.
pub open spec fn suffix_is(s: Seq<char>, lit: Seq<char>) -> bool {
    s.len() == lit.len() && forall|i: int| 0 <= i < s.len() ==> eq_ci(#[trigger] s[i], lit[i])
}

/// The milliseconds one unit of the named suffix lasts; an unrecognized
/// suffix counts as seconds.
pub open spec fn unit_ms_of(suf: Seq<char>) -> int {
    if suffix_is(suf, "ms"@) {
        1
    } else if suf.len() == 0 || suffix_is(suf, "s"@) || suffix_is(suf, "sec"@) || suffix_is(
        suf,
        "second"@,
    ) || suffix_is(suf, "seconds"@) {
        1000
    } else if suffix_is(suf, "min"@) || suffix_is(suf, "mins"@) || suffix_is(suf, "minute"@)
        || suffix_is(suf, "minutes"@) {
        60_000
    } else if suffix_is(suf, "h"@) || suffix_is(suf, "hr"@) || suffix_is(suf, "hrs"@) || suffix_is(
        suf,
        "hour"@,
    ) || suffix_is(suf, "hours"@) {
        3_600_000
    } else if suffix_is(suf, "d"@) || suffix_is(suf, "day"@) || suffix_is(suf, "days"@) {
        86_400_000
    } else {
        1000
    }
}

/// The milliseconds a time-limit argument denotes: a decimal count of the
/// unit its letter suffix names, rounded down to whole milliseconds;
/// nothing for a malformed or out-of-range argument.
pub open spec fn spec_parse_time(s: Seq<char>) -> Option<int> {
    let nl = num_len(s);
    match spec_number(s.take(nl)) {
        None => None,
        Some((v, fl)) => {
            let ms = v * unit_ms_of(s.skip(nl)) / pow10(fl);
            if ms > u64::MAX {
                None
            } else {
                Some(ms)
            }
        },
    }
}

/// Whether the suffix of `s` starting at `from` names the lower-case unit
/// `lit`, ignoring letter case.
fn suffix_matches(s: &str, from: usize, lit: &str) -> (r: bool)
    requires
        from <= s@.len(),
    ensures
        r == suffix_is(s@.skip(from as int), lit@),
{
    let n = s.unicode_len();
    let m = lit.unicode_len();
    if n - from != m {
        return false;
    }
    let mut i: usize = 0;
    while i < m
        invariant
            i <= m,
            from + m == n,
            n == s@.len(),
            m == lit@.len(),
            forall|j: int| 0 <= j < i ==> eq_ci(s@[from + j], lit@[j]),
        decreases m - i,
    {
        let a = s.get_char(from + i);
        let b = lit.get_char(i);
        let ok = a == b || (a >= 'A' && a <= 'Z' && (a as u32) + 32 == b as u32);
        if !ok {
            proof {
                assert(s@.skip(from as int)[i as int] == s@[from + i]);
            }
            return false;
        }
        i += 1;
    }
    proof {
        assert(forall|j: int|
            0 <= j < m ==> s@.skip(from as int)[j] == s@[from + j]);
    }
    true
}

/// Whether the character before position `nl` is an ASCII letter.
fn prev_is_alpha(s: &str, nl: usize) -> (r: bool)
    requires
        1 <= nl <= s@.len(),
    ensures
        r == is_alpha(s@[nl - 1]),
{
    let c = s.get_char(nl - 1);
    (c >= 'a' && c <= 'z') || (c >= 'A' && c <= 'Z')
}

/// The milliseconds a time-limit argument denotes: a decimal count of the
/// unit named by its letter suffix (seconds when there is none or it is
/// unrecognized), rounded down to whole milliseconds. Malformed numbers,
/// more than nineteen digits, or a result beyond range give nothing.
pub fn parse_time(s: &str) -> (r: Option<u64>)
    ensures
        r is Some ==> spec_parse_time(s@) == Some(r.unwrap() as int),
        r is None ==> spec_parse_time(s@) is None,
{
    let n = s.unicode_len();
    proof {
        assert(s@.take(n as int) =~= s@);
    }
    let mut nl: usize = n;
    while nl > 0 && prev_is_alpha(s, nl)
        invariant
            nl <= n,
            n == s@.len(),
            num_len(s@) == num_len(s@.take(nl as int)),
            forall|j: int| nl <= j < n ==> is_alpha(#[trigger] s@[j]),
        decreases nl,
    {
        proof {
            assert(s@.take(nl as int).drop_last() =~= s@.take(nl - 1));
            assert(s@.take(nl as int).last() == s@[nl - 1]);
        }
        nl = nl - 1;
    }
    proof {
        if nl > 0 {
            assert(s@.take(nl as int).last() == s@[nl - 1]);
            assert(num_len(s@.take(nl as int)) == nl);
        }
        assert(num_len(s@) == nl);
        assert(s@.take(num_len(s@)) =~= s@.take(nl as int));
        assert(s@.skip(num_len(s@)) =~= s@.skip(nl as int));
    }
    let ghost num = s@.take(nl as int);
    // find the decimal point, if any
    let mut dot: usize = nl;
    let mut seen = false;
    let mut i: usize = 0;
    while i < nl
        invariant
            i <= nl <= n,
            n == s@.len(),
            num == s@.take(nl as int),
            !seen ==> dot == nl && forall|j: int| 0 <= j < i ==> num[j] != '.',
            seen ==> (dot < i && num[dot as int] == '.' && forall|j: int|
                0 <= j < dot ==> num[j] != '.'),
        decreases nl - i,
    {
        if !seen {
            if s.get_char(i) == '.' {
                proof {
                    assert(num[i as int] == s@[i as int]);
                }
                seen = true;
                dot = i;
            } else {
                proof {
                    assert(num[i as int] == s@[i as int]);
                }
            }
        }
        i += 1;
    }
    proof {
        if seen {
            lemma_dot_index(num, dot as int);
        } else {
            lemma_dot_index(num, nl as int);
        }
    }
    let (value, frac_len) = if !seen {
        if nl == 0 || nl > 19 {
            proof {
                assert(s@.subrange(0, nl as int) =~= num);
            }
            return None;
        }
        proof {
            assert(s@.subrange(0, nl as int) =~= num);
        }
        match scan_digits(s, 0, nl) {
            Some(v) => {
                proof {
                    lemma_pow10_bounds(nl as int);
                }
                (v as u128, 0usize)
            },
            None => {
                return None;
            },
        }
    } else {
        if nl < 2 || nl > 20 {
            return None;
        }
        proof {
            assert(s@.subrange(0, dot as int) =~= num.take(dot as int));
            assert(s@.subrange(dot + 1, nl as int) =~= num.skip(dot + 1));
        }
        let ip = match scan_digits(s, 0, dot) {
            Some(v) => v,
            None => {
                return None;
            },
        };
        let fp = match scan_digits(s, dot + 1, nl) {
            Some(v) => v,
            None => {
                return None;
            },
        };
        let fl = nl - dot - 1;
        let scale = pow10_u64(fl as u64);
        proof {
            lemma_pow10_bounds(fl as int);
            lemma_pow10_bounds(dot as int);
            lemma_pow10_bounds(19);
            lemma_pow10_mul(dot as int, fl as int);
            vstd::arithmetic::mul::lemma_mul_nonnegative(ip as int, scale as int);
            vstd::arithmetic::mul::lemma_mul_inequality(ip as int, pow10(dot as int) - 1, scale as int);
            assert((pow10(dot as int) - 1) * pow10(fl as int) == pow10(dot as int) * pow10(
                fl as int,
            ) - pow10(fl as int)) by (nonlinear_arith);
            lemma_pow10_bounds((19 - dot - fl) as int);
            lemma_pow10_bounds((dot + fl) as int);
            vstd::arithmetic::mul::lemma_mul_inequality(1, pow10((19 - dot - fl) as int), pow10(
                (dot + fl) as int,
            ));
            lemma_pow10_mul((dot + fl) as int, (19 - dot - fl) as int);
            lemma_pow10_bounds(19);
            assert((ip as int) * (scale as int) + (fp as int) <= 0x8ac7_2304_89e8_0000);
        }
        ((ip as u128) * (scale as u128) + (fp as u128), fl)
    };
    let unit: u64 = if suffix_matches(s, nl, "ms") {
        1
    } else if nl == n || suffix_matches(s, nl, "s") || suffix_matches(s, nl, "sec")
        || suffix_matches(s, nl, "second") || suffix_matches(s, nl, "seconds") {
        1000
    } else if suffix_matches(s, nl, "min") || suffix_matches(s, nl, "mins") || suffix_matches(
        s,
        nl,
        "minute",
    ) || suffix_matches(s, nl, "minutes") {
        60_000
    } else if suffix_matches(s, nl, "h") || suffix_matches(s, nl, "hr") || suffix_matches(
        s,
        nl,
        "hrs",
    ) || suffix_matches(s, nl, "hour") || suffix_matches(s, nl, "hours") {
        3_600_000
    } else if suffix_matches(s, nl, "d") || suffix_matches(s, nl, "day") || suffix_matches(
        s,
        nl,
        "days",
    ) {
        86_400_000
    } else {
        1000
    };
    proof {
        vstd::arithmetic::mul::lemma_mul_nonnegative(value as int, unit as int);
        vstd::arithmetic::mul::lemma_mul_upper_bound(
            value as int,
            0x8ac7_2304_89e8_0000,
            unit as int,
            86_400_000,
        );
    }
    let ms: u128 = value * (unit as u128) / (pow10_u64(frac_len as u64) as u128);
    if ms > u64::MAX as u128 {
        None
    } else {
        Some(ms as u64)
    }
}

/// Powers of ten only grow with the exponent.
proof fn lemma_pow10_le(k1: int, k2: int)
    requires
        0 <= k1 <= k2,
    ensures
        1 <= pow10(k1) <= pow10(k2),
    decreases k2,
{
    if k1 < k2 {
        lemma_pow10_le(k1, k2 - 1);
    } else if k2 > 0 {
        lemma_pow10_le(0, k2 - 1);
    }
}

/// The powers of ten around the largest count of digits accepted.
proof fn lemma_pow10_values()
    ensures
        pow10(18) == 0xde0_b6b3_a764_0000,
        pow10(19) == 0x8ac7_2304_89e8_0000,
        pow10(20) == 0x5_6bc7_5e2d_6310_0000,
{
    assert(pow10(0) == 1);
    assert(pow10(1) == 10);
    assert(pow10(2) == 100);
    assert(pow10(3) == 1000);
    assert(pow10(4) == 10000);
    assert(pow10(5) == 100000);
    assert(pow10(6) == 1000000);
    assert(pow10(7) == 10000000);
    assert(pow10(8) == 100000000);
    assert(pow10(9) == 1000000000);
    assert(pow10(10) == 10000000000);
    assert(pow10(11) == 100000000000);
    assert(pow10(12) == 1000000000000);
    assert(pow10(13) == 10000000000000);
    assert(pow10(14) == 100000000000000);
    assert(pow10(15) == 1000000000000000);
    assert(pow10(16) == 10000000000000000);
    assert(pow10(17) == 100000000000000000);
    assert(pow10(18) == 1000000000000000000);
    assert(pow10(19) == 10000000000000000000);
    assert(pow10(20) == 100000000000000000000);
}

/// Digit counts stay small enough that their power of ten fits in range.
proof fn lemma_pow10_bounds(k: int)
    requires
        0 <= k <= 20,
    ensures
        1 <= pow10(k),
        k <= 18 ==> pow10(k) <= 0xde0_b6b3_a764_0000,
        k <= 19 ==> pow10(k) <= 0x8ac7_2304_89e8_0000,
        pow10(k) <= 0x5_6bc7_5e2d_6310_0000,
{
    lemma_pow10_values();
    if k <= 18 {
        lemma_pow10_le(k, 18);
    } else if k <= 19 {
        lemma_pow10_le(k, 19);
    } else {
        lemma_pow10_le(k, 20);
    }
}

/// Powers of ten multiply by adding their exponents.
proof fn lemma_pow10_mul(m: int, n: int)
    requires
        0 <= m,
        0 <= n,
    ensures
        pow10(m + n) == pow10(m) * pow10(n),
    decreases n,
{
    if n == 0 {
        assert(pow10(m) * 1 == pow10(m)) by (nonlinear_arith);
    } else {
        lemma_pow10_mul(m, n - 1);
        assert(10 * (pow10(m) * pow10(n - 1)) == pow10(m) * (10 * pow10(n - 1)))
            by (nonlinear_arith);
    }
}

/// Ten to a small power.
fn pow10_u64(k: u64) -> (r: u64)
    requires
        k <= 19,
    ensures
        r == pow10(k as int),
        r >= 1,
{
    proof {
        lemma_pow10_bounds(k as int);
    }
    let mut r: u64 = 1;
    let mut i: u64 = 0;
    while i < k
        invariant
            i <= k <= 19,
            r == pow10(i as int),
        decreases k - i,
    {
        proof {
            lemma_pow10_bounds(i as int);
            lemma_pow10_bounds(i + 1);
        }
        r = r * 10;
        i += 1;
    }
    r
}

/// The value of the digit run `s[from..to]`, or nothing if any character
/// there is no digit. The caller keeps the run short enough to fit.
fn scan_digits(s: &str, from: usize, to: usize) -> (r: Option<u64>)
    requires
        from <= to <= s@.len(),
        to - from <= 19,
    ensures
        r is Some ==> all_digits(s@.subrange(from as int, to as int)) && r.unwrap()
            == digits_value(s@.subrange(from as int, to as int)) && r.unwrap() < pow10(
            (to - from) as int,
        ),
        r is None ==> !all_digits(s@.subrange(from as int, to as int)),
{
    let mut v: u64 = 0;
    let mut i: usize = from;
    while i < to
        invariant
            from <= i <= to <= s@.len(),
            to - from <= 19,
            all_digits(s@.subrange(from as int, i as int)),
            v == digits_value(s@.subrange(from as int, i as int)),
            v < pow10((i - from) as int),
        decreases to - i,
    {
        let c = s.get_char(i);
        if !(c >= '0' && c <= '9') {
            proof {
                assert(s@.subrange(from as int, to as int)[i - from] == s@[i as int]);
            }
            return None;
        }
        proof {
            lemma_pow10_bounds((i - from) as int);
            lemma_pow10_bounds((i + 1 - from) as int);
            assert(s@.subrange(from as int, i + 1).drop_last() =~= s@.subrange(
                from as int,
                i as int,
            ));
            assert(s@.subrange(from as int, i + 1).last() == s@[i as int]);
        }
        let d = (c as u32) - ('0' as u32);
        v = v * 10 + (d as u64);
        i += 1;
    }
    proof {
        assert(s@.subrange(from as int, to as int) =~= s@.subrange(from as int, i as int));
    }
    Some(v)
}

/// Whether two strings hold the same characters.
pub fn str_eq(a: &str, b: &str) -> (r: bool)
    ensures
        r == (a@ == b@),
{
    let la = a.unicode_len();
    let lb = b.unicode_len();
    if la != lb {
        proof {
            assert(a@ != b@);
        }
        return false;
    }
    let mut i: usize = 0;
    while i < la
        invariant
            i <= la,
            la == a@.len(),
            la == b@.len(),
            forall|j: int| 0 <= j < i ==> a@[j] == b@[j],
        decreases la - i,
    {
        if a.get_char(i) != b.get_char(i) {
            return false;
        }
        i += 1;
    }
    proof {
        assert(a@ =~= b@);
    }
    true
}

/// The memory a slice occupies, as text scaled to a binary unit.
pub fn human_size_of<T>(data: &[T]) -> (r: String)
    ensures
        r@ == spec_human_size(vstd::layout::size_of_val_as_usize(data) as int),
{
    human_size(core::mem::size_of_val(data))
}

} // verus!
