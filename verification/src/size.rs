//! Parsing of human-readable size strings ("512", "2MB") into byte counts,
//! and formatting of byte counts back into such strings for diagnostics.
//!
//! The recognized suffixes are `KB`, `MB`, `GB` and `B`, case-insensitive,
//! with binary (1024-based) multipliers; a string without a suffix is a raw
//! byte count. The numeric portion must be a non-negative integer.

use crate::text::{chars_of, dec_digits, digit_char, push_decimal, string_of};
use vstd::prelude::*;

verus! {

pub const BYTES_PER_KB: u64 = 1024;

pub const BYTES_PER_MB: u64 = 1024 * 1024;

pub const BYTES_PER_GB: u64 = 1024 * 1024 * 1024;

/// Whether `c` has the Unicode `White_Space` property, the set of characters
/// that `str::trim` removes.
pub open spec fn is_unicode_whitespace(c: char) -> bool {
    let u = c as u32;
    (9 <= u && u <= 13) || u == 32 || u == 0x85 || u == 0xa0 || u == 0x1680 || (0x2000 <= u && u
        <= 0x200a) || u == 0x2028 || u == 0x2029 || u == 0x202f || u == 0x205f || u == 0x3000
}

/// `s` with leading whitespace removed.
pub open spec fn trim_start(s: Seq<char>) -> Seq<char>
    decreases s.len(),
{
    if s.len() > 0 && is_unicode_whitespace(s[0]) {
        trim_start(s.drop_first())
    } else {
        s
    }
}

/// `s` with trailing whitespace removed.
pub open spec fn trim_end(s: Seq<char>) -> Seq<char>
    decreases s.len(),
{
    if s.len() > 0 && is_unicode_whitespace(s.last()) {
        trim_end(s.drop_last())
    } else {
        s
    }
}

/// `s` with leading and trailing whitespace removed, as `str::trim` leaves it.
pub open spec fn spec_trimmed(s: Seq<char>) -> Seq<char> {
    trim_end(trim_start(s))
}

/// An ASCII lowercase letter mapped to its uppercase form; anything else kept.
pub open spec fn ascii_upper_char(c: char) -> char {
    if 97 <= c as u32 && c as u32 <= 122 {
        ((c as u32) - 32) as char
    } else {
        c
    }
}

/// `s` with each ASCII lowercase letter replaced by its uppercase form.
pub open spec fn ascii_upper(s: Seq<char>) -> Seq<char> {
    s.map_values(|c: char| ascii_upper_char(c))
}

/// The size string as the parser sees it after normalization: trimmed, then
/// upper-cased.
pub open spec fn spec_normalized(s: Seq<char>) -> Seq<char> {
    ascii_upper(spec_trimmed(s))
}

/// Whether the normalized string `u` ends in the two characters `c1`, `c2`.
pub open spec fn ends_two(u: Seq<char>, c1: char, c2: char) -> bool {
    u.len() >= 2 && u[u.len() - 2] == c1 && u.last() == c2
}

/// Splits the normalized string into its numeric portion and the multiplier
/// of its unit suffix. The checks run `KB`, `MB`, `GB`, then bare `B`, so a
/// two-letter suffix is never mistaken for a trailing `B` alone.
pub open spec fn spec_num_and_unit(u: Seq<char>) -> (Seq<char>, u64) {
    if ends_two(u, 'K', 'B') {
        (u.take(u.len() - 2), BYTES_PER_KB)
    } else if ends_two(u, 'M', 'B') {
        (u.take(u.len() - 2), BYTES_PER_MB)
    } else if ends_two(u, 'G', 'B') {
        (u.take(u.len() - 2), BYTES_PER_GB)
    } else if u.len() >= 1 && u.last() == 'B' {
        (u.take(u.len() - 1), 1u64)
    } else {
        (u, 1u64)
    }
}

/// Whether `c` is an ASCII decimal digit.
pub open spec fn is_digit_char(c: char) -> bool {
    48 <= c as u32 && c as u32 <= 57
}

/// The numeric value of the digit character `c`.
pub open spec fn digit_value(c: char) -> int {
    c as u32 - 48
}

pub open spec fn all_digits(s: Seq<char>) -> bool {
    forall|i: int| 0 <= i < s.len() ==> is_digit_char(s[i])
}

/// The value of a digit string, most significant digit first.
pub open spec fn digits_value(s: Seq<char>) -> int
    decreases s.len(),
{
    if s.len() == 0 {
        0
    } else {
        digits_value(s.drop_last()) * 10 + digit_value(s.last())
    }
}

/// What `str::parse::<u64>` accepts: an optional leading `+`, then at least
/// one decimal digit, with a value that fits in a `u64`.
pub open spec fn spec_parse_u64(s: Seq<char>) -> Option<u64> {
    let d = if s.len() > 0 && s[0] == '+' {
        s.drop_first()
    } else {
        s
    };
    if d.len() > 0 && all_digits(d) && digits_value(d) <= u64::MAX {
        Some(digits_value(d) as u64)
    } else {
        None
    }
}

/// The byte count denoted by a size string, if any: the string is trimmed and
/// upper-cased, a unit suffix selects the multiplier, and the rest must be a
/// non-negative integer. A product beyond `u64::MAX` is rejected as well.
pub open spec fn spec_parse_file_size(s: Seq<char>) -> Option<u64> {
    let u = spec_normalized(s);
    let (num, unit) = spec_num_and_unit(u);
    match spec_parse_u64(num) {
        Some(n) => if n * unit <= u64::MAX {
            Some((n * unit) as u64)
        } else {
            None
        },
        None => None,
    }
}

/// Whether every character of `s` is ASCII.
pub open spec fn is_ascii_seq(s: Seq<char>) -> bool {
    forall|i: int| 0 <= i < s.len() ==> (s[i] as u32) < 128
}

/// What `str::to_uppercase` returns for a string with the characters `s`: a
/// function of those characters alone.
pub uninterp spec fn upper_of(s: Seq<char>) -> Seq<char>;

/// Relies on `str::to_uppercase`: the result is the Unicode uppercase of the
/// input, a function of its characters alone, and on an all-ASCII input it
/// is exactly the ASCII uppercase.
#[verifier::external_body]
fn to_uppercase(s: &str) -> (r: String)
    ensures
        r@ == upper_of(s@),
        is_ascii_seq(s@) ==> r@ == ascii_upper(s@),
{
    s.to_uppercase()
}

/// The error text for an unparseable size string, carrying the trimmed,
/// upper-cased form of the input. The upper-casing here is the full Unicode
/// one the error message has always shown, not the ASCII model that decides
/// acceptance; the two agree on every ASCII input.
pub open spec fn spec_invalid_size_message(s: Seq<char>) -> Seq<char> {
    "Invalid file size format: "@ + upper_of(spec_trimmed(s))
}

fn is_whitespace_char(c: char) -> (r: bool)
    ensures
        r == is_unicode_whitespace(c),
{
    let u = c as u32;
    (9 <= u && u <= 13) || u == 32 || u == 0x85 || u == 0xa0 || u == 0x1680 || (0x2000 <= u && u
        <= 0x200a) || u == 0x2028 || u == 0x2029 || u == 0x202f || u == 0x205f || u == 0x3000
}

proof fn lemma_trim_start_step(s: Seq<char>, i: int)
    requires
        0 <= i < s.len(),
        is_unicode_whitespace(s[i]),
        trim_start(s) == trim_start(s.skip(i)),
    ensures
        trim_start(s) == trim_start(s.skip(i + 1)),
{
    assert(s.skip(i).drop_first() =~= s.skip(i + 1));
}

proof fn lemma_trim_end_step(s: Seq<char>, j: int)
    requires
        0 < j <= s.len(),
        is_unicode_whitespace(s[j - 1]),
        trim_end(s) == trim_end(s.take(j)),
    ensures
        trim_end(s) == trim_end(s.take(j - 1)),
{
    assert(s.take(j).drop_last() =~= s.take(j - 1));
}

/// The characters of `v` with leading and trailing whitespace removed.
fn trimmed_chars(v: &Vec<char>) -> (r: Vec<char>)
    ensures
        r@ == spec_trimmed(v@),
{
    let mut i: usize = 0;
    proof {
        assert(v@.skip(0) =~= v@);
    }
    while i < v.len() && is_whitespace_char(v[i])
        invariant
            i <= v.len(),
            trim_start(v@) == trim_start(v@.skip(i as int)),
        decreases v.len() - i,
    {
        proof {
            lemma_trim_start_step(v@, i as int);
        }
        i = i + 1;
    }
    proof {
        assert(trim_start(v@) == v@.skip(i as int));
    }
    let ghost t = trim_start(v@);
    let mut j: usize = v.len();
    proof {
        assert(v@.subrange(i as int, v@.len() as int) =~= v@.skip(i as int));
    }
    while j > i && is_whitespace_char(v[j - 1])
        invariant
            i <= j <= v.len(),
            trim_start(v@) == v@.skip(i as int),
            trim_end(t) == trim_end(v@.subrange(i as int, j as int)),
        decreases j,
    {
        proof {
            let sub = v@.subrange(i as int, j as int);
            assert(sub[j - i - 1] == v@[j - 1]);
            assert(sub.take(sub.len() as int) =~= sub);
            lemma_trim_end_step(sub, sub.len() as int);
            assert(sub.take(sub.len() - 1) =~= v@.subrange(i as int, j - 1));
        }
        j = j - 1;
    }
    proof {
        let sub = v@.subrange(i as int, j as int);
        if sub.len() > 0 {
            assert(sub.last() == v@[j - 1]);
        }
        assert(trim_end(t) == sub);
    }
    let mut r: Vec<char> = Vec::new();
    let mut k: usize = i;
    while k < j
        invariant
            i <= k <= j <= v.len(),
            r@ == v@.subrange(i as int, k as int),
        decreases j - k,
    {
        proof {
            assert(v@.subrange(i as int, k + 1) =~= v@.subrange(i as int, k as int).push(
                v@[k as int],
            ));
        }
        r.push(v[k]);
        k = k + 1;
    }
    r
}

/// `v` with each ASCII lowercase letter replaced by its uppercase form.
fn ascii_upper_chars(v: &Vec<char>) -> (r: Vec<char>)
    ensures
        r@ == ascii_upper(v@),
{
    let mut r: Vec<char> = Vec::new();
    let mut i: usize = 0;
    while i < v.len()
        invariant
            i <= v.len(),
            r@ == ascii_upper(v@.take(i as int)),
        decreases v.len() - i,
    {
        let c = v[i];
        let u = c as u32;
        let up: char = if 97 <= u && u <= 122 {
            ((u - 32) as u8) as char
        } else {
            c
        };
        proof {
            assert(up == ascii_upper_char(c));
            assert(ascii_upper(v@.take(i + 1)) =~= ascii_upper(v@.take(i as int)).push(
                ascii_upper_char(v@[i as int]),
            ));
        }
        r.push(up);
        i = i + 1;
    }
    proof {
        assert(v@.take(v@.len() as int) =~= v@);
    }
    r
}

proof fn lemma_digits_value_nonneg(s: Seq<char>)
    requires
        all_digits(s),
    ensures
        digits_value(s) >= 0,
    decreases s.len(),
{
    if s.len() > 0 {
        assert(all_digits(s.drop_last()));
        lemma_digits_value_nonneg(s.drop_last());
    }
}

proof fn lemma_digits_value_prefix_le(s: Seq<char>, j: int)
    requires
        all_digits(s),
        0 <= j <= s.len(),
    ensures
        digits_value(s.take(j)) <= digits_value(s),
    decreases s.len() - j,
{
    if j < s.len() {
        let t = s.take(j + 1);
        assert(t.drop_last() =~= s.take(j));
        assert(all_digits(s.take(j))) by {
            assert(forall|k: int| 0 <= k < j ==> s.take(j)[k] == s[k]);
        }
        lemma_digits_value_nonneg(s.take(j));
        assert(digits_value(t) == digits_value(s.take(j)) * 10 + digit_value(s[j]));
        assert(digits_value(s.take(j)) * 10 >= digits_value(s.take(j)));
        lemma_digits_value_prefix_le(s, j + 1);
    } else {
        assert(s.take(j) =~= s);
    }
}

proof fn lemma_parse_u64_unfold(num: Seq<char>, d: Seq<char>)
    requires
        d == if num.len() > 0 && num[0] == '+' {
            num.drop_first()
        } else {
            num
        },
    ensures
        spec_parse_u64(num) == if d.len() > 0 && all_digits(d) && digits_value(d) <= u64::MAX {
            Some(digits_value(d) as u64)
        } else {
            None::<u64>
        },
{
}

/// The error string for an unparseable size string whose trimmed form is `t`.
fn invalid_message(t: &Vec<char>) -> (r: String)
    ensures
        r@ == "Invalid file size format: "@ + upper_of(t@),
{
    let trimmed_text = string_of(t);
    let upper = to_uppercase(trimmed_text.as_str());
    let mut msg = chars_of("Invalid file size format: ");
    crate::text::push_str_chars(&mut msg, upper.as_str());
    string_of(&msg)
}

/// Parses a human-readable size string into a byte count.
///
/// The input is trimmed and upper-cased; a `KB`, `MB` or `GB` suffix scales
/// the number by its binary multiplier, a bare `B` leaves it, and no suffix
/// means raw bytes. Any other content yields the error string carrying the
/// normalized input.
pub fn parse_file_size(size_str: &str) -> (r: Result<u64, String>)
    ensures
        spec_parse_file_size(size_str@) matches Some(v) ==> (r matches Ok(n) && n == v),
        spec_parse_file_size(size_str@) is None ==> (r matches Err(m) && m@
            == spec_invalid_size_message(size_str@)),
{
    let raw = chars_of(size_str);
    let t = trimmed_chars(&raw);
    let u = ascii_upper_chars(&t);
    proof {
        assert(u@ == spec_normalized(size_str@));
    }
    let n = u.len();
    let (num_end, unit): (usize, u64) = if n >= 2 && u[n - 2] == 'K' && u[n - 1] == 'B' {
        (n - 2, BYTES_PER_KB)
    } else if n >= 2 && u[n - 2] == 'M' && u[n - 1] == 'B' {
        (n - 2, BYTES_PER_MB)
    } else if n >= 2 && u[n - 2] == 'G' && u[n - 1] == 'B' {
        (n - 2, BYTES_PER_GB)
    } else if n >= 1 && u[n - 1] == 'B' {
        (n - 1, 1)
    } else {
        (n, 1)
    };
    let ghost num = spec_num_and_unit(u@).0;
    proof {
        assert(num =~= u@.take(num_end as int));
        assert(unit == spec_num_and_unit(u@).1);
    }
    let start: usize = if num_end > 0 && u[0] == '+' {
        1
    } else {
        0
    };
    let ghost d = u@.subrange(start as int, num_end as int);
    proof {
        if num.len() > 0 && num[0] == '+' {
            assert(num.drop_first() =~= d);
            lemma_parse_u64_unfold(num, d);
        } else {
            assert(num =~= d);
            lemma_parse_u64_unfold(num, d);
        }
    }
    if start >= num_end {
        proof {
            assert(d.len() == 0);
            assert(spec_parse_u64(num) is None);
        }
        return Err(invalid_message(&t));
    }
    let mut acc: u64 = 0;
    let mut k: usize = start;
    while k < num_end
        invariant
            start <= k <= num_end,
            num_end <= u.len(),
            t@ == spec_trimmed(size_str@),
            u@ == spec_normalized(size_str@),
            num == spec_num_and_unit(u@).0,
            unit == spec_num_and_unit(u@).1,
            d == u@.subrange(start as int, num_end as int),
            d.len() == num_end - start,
            spec_parse_u64(num) == if d.len() > 0 && all_digits(d) && digits_value(d)
                <= u64::MAX {
                Some(digits_value(d) as u64)
            } else {
                None::<u64>
            },
            all_digits(d.take(k - start)),
            acc == digits_value(d.take(k - start)),
        decreases num_end - k,
    {
        let c = u[k];
        proof {
            assert(d[k - start] == u@[k as int]);
        }
        let cu = c as u32;
        if cu < 48 || cu > 57 {
            proof {
                assert(!is_digit_char(d[k - start]));
                assert(!all_digits(d));
                assert(spec_parse_u64(num) is None);
            }
            return Err(invalid_message(&t));
        }
        let dv = (cu - 48) as u64;
        proof {
            assert(is_digit_char(d[k - start]));
            assert(dv == digit_value(d[k - start]));
            assert(d.take(k - start + 1).drop_last() =~= d.take(k - start));
            assert(all_digits(d.take(k - start + 1)));
        }
        if acc > (u64::MAX - dv) / 10 {
            proof {
                let q = ((u64::MAX - dv) / 10) as int;
                let r2 = ((u64::MAX - dv) % 10) as int;
                assert(u64::MAX - dv == 10 * q + r2);
                assert(acc * 10 >= (q + 1) * 10) by (nonlinear_arith)
                    requires
                        acc >= q + 1,
                ;
                assert(digits_value(d.take(k - start + 1)) > u64::MAX);
                if all_digits(d) {
                    lemma_digits_value_prefix_le(d, k - start + 1);
                    assert(digits_value(d) > u64::MAX);
                }
                assert(spec_parse_u64(num) is None);
            }
            return Err(invalid_message(&t));
        }
        proof {
            let q = ((u64::MAX - dv) / 10) as int;
            let r2 = ((u64::MAX - dv) % 10) as int;
            assert(u64::MAX - dv == 10 * q + r2);
            assert(acc * 10 <= q * 10) by (nonlinear_arith)
                requires
                    acc <= q,
            ;
        }
        acc = acc * 10 + dv;
        k = k + 1;
    }
    proof {
        assert(d.take(num_end - start) =~= d);
        assert(spec_parse_u64(num) == Some(acc)) by {
            lemma_digits_value_nonneg(d);
        }
    }
    if unit > 1 && acc > u64::MAX / unit {
        proof {
            let q = (u64::MAX / unit) as int;
            let r2 = (u64::MAX % unit) as int;
            vstd::arithmetic::div_mod::lemma_fundamental_div_mod(u64::MAX as int, unit as int);
            assert(u64::MAX == unit * q + r2);
            assert(acc * unit >= (q + 1) * unit) by (nonlinear_arith)
                requires
                    acc >= q + 1,
                    unit >= 0,
            ;
            assert((q + 1) * unit == q * unit + unit) by (nonlinear_arith);
            assert(acc * unit > u64::MAX);
            assert(spec_parse_file_size(size_str@) is None);
        }
        return Err(invalid_message(&t));
    }
    proof {
        if unit > 1 {
            let q = (u64::MAX / unit) as int;
            let r2 = (u64::MAX % unit) as int;
            vstd::arithmetic::div_mod::lemma_fundamental_div_mod(u64::MAX as int, unit as int);
            assert(u64::MAX == unit * q + r2);
            assert(acc * unit <= q * unit) by (nonlinear_arith)
                requires
                    acc <= q,
                    unit >= 0,
            ;
            assert(q * unit + r2 == u64::MAX);
            assert(acc * unit <= u64::MAX);
        }
        assert(acc * unit <= u64::MAX);
        assert(spec_parse_file_size(size_str@) == Some((acc * unit) as u64));
    }
    Ok(acc * unit)
}

/// The band of the unit that `format_file_size` picks for `size`: 0 for plain
/// bytes, 1 for `KB`, 2 for `MB`, 3 for `GB`.
pub open spec fn spec_unit_rank(size: int) -> int {
    if size >= BYTES_PER_GB {
        3
    } else if size >= BYTES_PER_MB {
        2
    } else if size >= BYTES_PER_KB {
        1
    } else {
        0
    }
}

/// The nearest integer to the rational `numer / denom`, ties going to the
/// even neighbour, as `{:.1}` formatting rounds.
pub open spec fn round_half_even(numer: int, denom: int) -> int
    recommends
        denom > 0,
{
    let q = numer / denom;
    let r = numer % denom;
    if 2 * r > denom {
        q + 1
    } else if 2 * r < denom {
        q
    } else if q % 2 == 0 {
        q
    } else {
        q + 1
    }
}

/// `size / div` expressed in tenths, rounded half-to-even.
pub open spec fn spec_tenths(size: int, div: int) -> int {
    round_half_even(size * 10, div)
}

/// A count of tenths shown with one decimal place: 15 becomes "1.5".
pub open spec fn spec_one_decimal(t: int) -> Seq<char> {
    dec_digits(t / 10) + seq!['.', digit_char(t % 10)]
}

/// The diagnostic rendering of a byte count: one decimal place with the
/// largest binary unit the count reaches, or the plain integer with `B`
/// below one kilobyte.
pub open spec fn spec_format_file_size(size: int) -> Seq<char> {
    let rank = spec_unit_rank(size);
    if rank == 3 {
        spec_one_decimal(spec_tenths(size, BYTES_PER_GB as int)) + seq!['G', 'B']
    } else if rank == 2 {
        spec_one_decimal(spec_tenths(size, BYTES_PER_MB as int)) + seq!['M', 'B']
    } else if rank == 1 {
        spec_one_decimal(spec_tenths(size, BYTES_PER_KB as int)) + seq!['K', 'B']
    } else {
        dec_digits(size) + seq!['B']
    }
}

/// Appends the one-decimal rendering of `size / div` to `out`.
fn push_one_decimal(out: &mut Vec<char>, size: u64, div: u64)
    requires
        1024 <= div <= 0x40000000,
    ensures
        final(out)@ == old(out)@ + spec_one_decimal(spec_tenths(size as int, div as int)),
{
    let q = size / div;
    let rem = size % div;
    let num = rem * 10;
    let q2 = num / div;
    let r2 = num % div;
    proof {
        vstd::arithmetic::div_mod::lemma_fundamental_div_mod(num as int, div as int);
        vstd::arithmetic::div_mod::lemma_fundamental_div_mod(size as int, div as int);
        assert(q2 <= 9) by (nonlinear_arith)
            requires
                div > 0,
                num == div * q2 + r2,
                0 <= r2 < div,
                num < 10 * div,
        ;
        assert(q <= 0x3fffffffffffffffu64 / 64) by (nonlinear_arith)
            requires
                size == div * q + rem,
                0 <= rem,
                size <= u64::MAX,
                div >= 1024,
                q >= 0,
        ;
    }
    let round_up: bool = if 2 * r2 > div {
        true
    } else if 2 * r2 < div {
        false
    } else {
        q2 % 2 == 1
    };
    let frac = if round_up {
        q2 + 1
    } else {
        q2
    };
    let t = q * 10 + frac;
    proof {
        let s10 = size as int * 10;
        vstd::arithmetic::div_mod::lemma_fundamental_div_mod(num as int, div as int);
        vstd::arithmetic::div_mod::lemma_fundamental_div_mod(size as int, div as int);
        assert(s10 == (q * 10 + q2) * div + r2) by (nonlinear_arith)
            requires
                size == div * q + rem,
                num == rem * 10,
                num == div * q2 + r2,
                s10 == size as int * 10,
        ;
        vstd::arithmetic::div_mod::lemma_fundamental_div_mod_converse(
            s10,
            div as int,
            q * 10 + q2,
            r2 as int,
        );
        assert(s10 / (div as int) == q * 10 + q2);
        assert(s10 % (div as int) == r2);
        assert((q * 10 + q2) % 2 == q2 % 2) by (nonlinear_arith)
            requires
                q >= 0,
                q2 >= 0,
        ;
        assert(t == spec_tenths(size as int, div as int));
    }
    push_decimal(out, t / 10);
    out.push('.');
    push_decimal(out, t % 10);
    proof {
        assert(dec_digits(t as int % 10) =~= seq![digit_char(t as int % 10)]);
        assert(final(out)@ =~= old(out)@ + spec_one_decimal(spec_tenths(size as int, div as int)));
    }
}

/// Renders a byte count for diagnostics: `"512B"`, `"1.0KB"`, `"2.0MB"`,
/// with binary thresholds and one decimal place for every unit above bytes.
pub fn format_file_size(size: u64) -> (r: String)
    ensures
        r@ == spec_format_file_size(size as int),
{
    let mut out: Vec<char> = Vec::new();
    if size >= BYTES_PER_GB {
        push_one_decimal(&mut out, size, BYTES_PER_GB);
        out.push('G');
        out.push('B');
    } else if size >= BYTES_PER_MB {
        push_one_decimal(&mut out, size, BYTES_PER_MB);
        out.push('M');
        out.push('B');
    } else if size >= BYTES_PER_KB {
        push_one_decimal(&mut out, size, BYTES_PER_KB);
        out.push('K');
        out.push('B');
    } else {
        push_decimal(&mut out, size);
        out.push('B');
    }
    proof {
        assert(out@ =~= spec_format_file_size(size as int));
    }
    string_of(&out)
}

/// Whether `suffix` spells one of the recognized unit suffixes, in any letter
/// case — or no suffix at all — and `mult` is that unit's multiplier.
pub open spec fn spec_unit_suffix(suffix: Seq<char>, mult: u64) -> bool {
    ||| (suffix.len() == 0 && mult == 1)
    ||| (suffix.len() == 1 && ascii_upper_char(suffix[0]) == 'B' && mult == 1)
    ||| (suffix.len() == 2 && ascii_upper_char(suffix[0]) == 'K' && ascii_upper_char(suffix[1])
        == 'B' && mult == BYTES_PER_KB)
    ||| (suffix.len() == 2 && ascii_upper_char(suffix[0]) == 'M' && ascii_upper_char(suffix[1])
        == 'B' && mult == BYTES_PER_MB)
    ||| (suffix.len() == 2 && ascii_upper_char(suffix[0]) == 'G' && ascii_upper_char(suffix[1])
        == 'B' && mult == BYTES_PER_GB)
}

/// Law: every well-formed size string is accepted, and denotes its number
/// times its unit's multiplier. A string of digits followed by one of the
/// recognized suffixes — in any letter case, or with no suffix — parses to
/// exactly `digits_value(digits) * mult`, whenever that product fits.
pub proof fn lemma_parse_accepts_valid(digits: Seq<char>, suffix: Seq<char>, mult: u64)
    requires
        digits.len() > 0,
        all_digits(digits),
        spec_unit_suffix(suffix, mult),
        digits_value(digits) * mult <= u64::MAX,
    ensures
        spec_parse_file_size(digits + suffix) == Some((digits_value(digits) * mult) as u64),
{
    let s = digits + suffix;
    assert(s[0] == digits[0]);
    assert(is_digit_char(s[0]));
    assert(!is_unicode_whitespace(s[0]));
    assert(trim_start(s) == s);
    if suffix.len() > 0 {
        assert(s.last() == suffix.last());
        assert(!is_unicode_whitespace(s.last()));
    } else {
        assert(s.last() == digits.last());
        assert(!is_unicode_whitespace(s.last()));
    }
    assert(trim_end(s) == s);
    let u = ascii_upper(s);
    assert(spec_normalized(s) == u);
    assert(u.len() == s.len());
    assert(forall|i: int| 0 <= i < digits.len() ==> u[i] == ascii_upper_char(digits[i]));
    assert(forall|i: int|
        0 <= i < digits.len() ==> is_digit_char(digits[i]) && ascii_upper_char(digits[i])
            == digits[i]);
    let (num, unit) = spec_num_and_unit(u);
    assert(unit == mult && num =~= digits) by {
        if suffix.len() == 2 {
            assert(u[u.len() - 2] == ascii_upper_char(suffix[0]));
            assert(u.last() == ascii_upper_char(suffix[1]));
            assert(u.take(u.len() - 2) =~= digits);
        } else if suffix.len() == 1 {
            assert(u.last() == ascii_upper_char(suffix[0]));
            assert(u[u.len() - 1] == 'B');
            if u.len() >= 2 {
                assert(u[u.len() - 2] == digits[digits.len() - 1]);
                assert(is_digit_char(digits[digits.len() - 1]));
            }
            assert(u.take(u.len() - 1) =~= digits);
        } else {
            assert(u.last() == digits[digits.len() - 1]);
            assert(is_digit_char(digits[digits.len() - 1]));
        }
    }
    assert(num[0] == digits[0]);
    assert(num[0] != '+');
    lemma_digits_value_nonneg(digits);
    assert(digits_value(digits) <= digits_value(digits) * mult) by (nonlinear_arith)
        requires
            digits_value(digits) >= 0,
            mult >= 1,
    ;
    assert(spec_parse_u64(num) == Some(digits_value(digits) as u64));
    assert(spec_parse_file_size(s) == Some((digits_value(digits) * mult) as u64));
}

/// Law: a size string whose numeric portion — what is left after the unit
/// suffix, if any, is stripped — does not parse as a non-negative integer is
/// rejected. An unrecognized unit leaves its letters in the numeric portion,
/// so it is rejected by the same rule.
pub proof fn lemma_parse_rejects_invalid(s: Seq<char>)
    requires
        spec_parse_u64(spec_num_and_unit(spec_normalized(s)).0) is None,
    ensures
        spec_parse_file_size(s) is None,
{
}

/// Law: the unit `format_file_size` picks is monotonically non-decreasing in
/// the byte count — a larger count is never shown in a smaller unit.
pub proof fn lemma_format_unit_monotonic(a: int, b: int)
    requires
        a <= b,
    ensures
        spec_unit_rank(a) <= spec_unit_rank(b),
{
}

} // verus!
