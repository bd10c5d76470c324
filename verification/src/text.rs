//! Character-sequence plumbing shared by the other modules: moving between
//! `&str` and `Vec<char>`, and rendering integers in decimal.

use vstd::prelude::*;

verus! {

/// The decimal digit character for `d`.
pub open spec fn digit_char(d: int) -> char
    recommends
        0 <= d < 10,
{
    if d == 0 {
        '0'
    } else if d == 1 {
        '1'
    } else if d == 2 {
        '2'
    } else if d == 3 {
        '3'
    } else if d == 4 {
        '4'
    } else if d == 5 {
        '5'
    } else if d == 6 {
        '6'
    } else if d == 7 {
        '7'
    } else if d == 8 {
        '8'
    } else {
        '9'
    }
}

/// The usual base-ten rendering of `n`, most significant digit first and
/// without leading zeros.
pub open spec fn dec_digits(n: int) -> Seq<char>
    recommends
        n >= 0,
    decreases n,
{
    if n < 10 {
        seq![digit_char(n)]
    } else {
        dec_digits(n / 10).push(digit_char(n % 10))
    }
}

/// The characters of `s`, as a vector.
pub(crate) fn chars_of(s: &str) -> (v: Vec<char>)
    ensures
        v@ == s@,
{
    let mut v: Vec<char> = Vec::new();
    for c in it: s.chars()
        invariant
            it.seq() == s@,
            v@ == it.seq().take(it.index()),
    {
        v.push(c);
    }
    proof {
        assert(v@ =~= s@);
    }
    v
}

/// Relies on `String`'s `FromIterator<char>` implementation (through
/// `Iterator::collect`): the collected string holds exactly the characters
/// of the vector, in order.
#[verifier::external_body]
pub(crate) fn string_of(v: &Vec<char>) -> (r: String)
    ensures
        r@ == v@,
{
    v.iter().collect()
}

/// The digit character for `d`, as executable code.
fn digit_char_exec(d: u64) -> (c: char)
    requires
        d < 10,
    ensures
        c == digit_char(d as int),
{
    if d == 0 {
        '0'
    } else if d == 1 {
        '1'
    } else if d == 2 {
        '2'
    } else if d == 3 {
        '3'
    } else if d == 4 {
        '4'
    } else if d == 5 {
        '5'
    } else if d == 6 {
        '6'
    } else if d == 7 {
        '7'
    } else if d == 8 {
        '8'
    } else {
        '9'
    }
}

/// Appends the decimal rendering of `n` to `out`.
pub(crate) fn push_decimal(out: &mut Vec<char>, n: u64)
    ensures
        final(out)@ == old(out)@ + dec_digits(n as int),
{
    let mut rev: Vec<char> = Vec::new();
    let mut m: u64 = n;
    while m >= 10
        invariant
            dec_digits(n as int) == dec_digits(m as int) + rev@.reverse(),
        decreases m,
    {
        let d = digit_char_exec(m % 10);
        proof {
            let ghost pre = rev@;
            assert((pre.push(digit_char(m as int % 10))).reverse() =~= seq![
                digit_char(m as int % 10),
            ] + pre.reverse());
            assert(dec_digits(m as int) == dec_digits(m as int / 10).push(
                digit_char(m as int % 10),
            ));
            assert(dec_digits(m as int / 10).push(digit_char(m as int % 10)) + pre.reverse()
                =~= dec_digits(m as int / 10) + (seq![digit_char(m as int % 10)] + pre.reverse()));
        }
        rev.push(d);
        m = m / 10;
    }
    let d = digit_char_exec(m);
    proof {
        let ghost pre = rev@;
        assert((pre.push(digit_char(m as int))).reverse() =~= seq![digit_char(m as int)]
            + pre.reverse());
        assert(dec_digits(m as int) =~= seq![digit_char(m as int)]);
        assert(seq![digit_char(m as int)] + pre.reverse() =~= (seq![digit_char(m as int)]
            + pre.reverse()));
    }
    rev.push(d);
    proof {
        assert(dec_digits(n as int) =~= rev@.reverse());
    }
    let mut i: usize = rev.len();
    while i > 0
        invariant
            i <= rev.len(),
            dec_digits(n as int) == rev@.reverse(),
            out@ == old(out)@ + rev@.reverse().take(rev@.len() - i),
        decreases i,
    {
        i = i - 1;
        let c = rev[i];
        proof {
            assert(rev@.reverse()[rev@.len() - i - 1] == rev@[i as int]);
            assert(old(out)@ + rev@.reverse().take(rev@.len() - i) =~= (old(out)@
                + rev@.reverse().take(rev@.len() - i - 1)).push(rev@[i as int]));
        }
        out.push(c);
    }
    proof {
        assert(rev@.reverse().take(rev@.len() as int) =~= rev@.reverse());
        assert(final(out)@ =~= old(out)@ + dec_digits(n as int));
    }
}

/// Appends every character of `src` to `out`.
pub(crate) fn push_chars(out: &mut Vec<char>, src: &Vec<char>)
    ensures
        final(out)@ == old(out)@ + src@,
{
    let mut i: usize = 0;
    while i < src.len()
        invariant
            i <= src.len(),
            out@ == old(out)@ + src@.take(i as int),
        decreases src.len() - i,
    {
        proof {
            assert(old(out)@ + src@.take(i + 1) =~= (old(out)@ + src@.take(i as int)).push(
                src@[i as int],
            ));
        }
        out.push(src[i]);
        i = i + 1;
    }
    proof {
        assert(src@.take(src@.len() as int) =~= src@);
        assert(final(out)@ =~= old(out)@ + src@);
    }
}

/// Appends every character of the string slice `src` to `out`.
pub(crate) fn push_str_chars(out: &mut Vec<char>, src: &str)
    ensures
        final(out)@ == old(out)@ + src@,
{
    let v = chars_of(src);
    push_chars(out, &v);
}

} // verus!
